//! Types nested inside `c_msg_client_app_info_request`.


use vstd::prelude::*;

use crate::codec::{
    bytes_seq_view, dec_packed_u32, dec_u32, enc_u32, fold_fields, lemma_fold_chain,
    lemma_fold_concat, lemma_fold_empty, lemma_fold_opt, lemma_fold_single,
    lemma_merge_run_empty, lemma_merge_run_fold, lemma_merge_run_step, lemma_opt_u32_numbered,
    lemma_rep_u32_numbered, lemma_u32_roundtrip, merge_run, opt_bytes_view, opt_u32,
    put_opt_u32, put_rep_u32, read_packed_u32, read_u32, rep_u32,
};

use crate::wire::fields::{
    field_bytes, field_wf, fields_bytes, fields_wf, lemma_fields_bytes_concat,
    lemma_fields_roundtrip, lemma_fields_wf_concat, lemma_fields_wf_from_len,
    lemma_parse_field_len, lemma_parse_fields_append, numbers_ok, parse_fields, read_field,
    Field, SpecField,
};
use crate::wire::varint::WireError;

verus! {

/// `App`, as Valve's schema declares it.
#[derive(Debug, Clone, PartialEq)]
pub struct App {
    /// Field 1.
    pub app_id: Option<u32>,
    /// Field 2.
    pub section_flags: Option<u32>,
    /// Field 3.
    pub section_crc: Vec<u32>,
}

/// What a `App` holds, as mathematical values.
#[verifier::ext_equal]
pub struct SpecApp {
    pub app_id: Option<u32>,
    pub section_flags: Option<u32>,
    pub section_crc: Seq<u32>,
}

impl View for App {
    type V = SpecApp;

    open spec fn view(&self) -> SpecApp {
        SpecApp {
            app_id: self.app_id,
            section_flags: self.section_flags,
            section_crc: self.section_crc@,
        }
    }
}

impl Default for App {
    fn default() -> (r: Self)
        ensures
            r@ == App::spec_default(),
    {
        App {
            app_id: None,
            section_flags: None,
            section_crc: Vec::new(),
        }
    }
}

impl App {
    pub open spec fn spec_default() -> SpecApp {
        SpecApp {
            app_id: None,
            section_flags: None,
            section_crc: Seq::empty(),
        }
    }

    /// The records a `App` is written as, in field order.
    pub open spec fn spec_fields(v: SpecApp) -> Seq<SpecField> {
        Seq::<SpecField>::empty()
            + opt_u32(1, v.app_id)
            + opt_u32(2, v.section_flags)
            + rep_u32(3, v.section_crc)
    }

    #[verifier::opaque]
    pub open spec fn spec_encode(v: SpecApp) -> Seq<u8> {
        fields_bytes(Self::spec_fields(v))
    }

    /// What one record does to the message: a declared number sets or extends its
    /// field, any other number is left alone.
    pub open spec fn spec_apply(v: SpecApp, f: SpecField) -> Result<SpecApp, WireError> {
        match f.number {
            1 => match dec_u32(f.value) {
                Ok(x) => Ok(SpecApp { app_id: Some(x), ..v }),
                Err(e) => Err(e),
            },
            2 => match dec_u32(f.value) {
                Ok(x) => Ok(SpecApp { section_flags: Some(x), ..v }),
                Err(e) => Err(e),
            },
            3 => match dec_packed_u32(f.value) {
                Ok(xs) => Ok(SpecApp { section_crc: v.section_crc + xs, ..v }),
                Err(e) => Err(e),
            },
            _ => Ok(v),
        }
    }

    pub open spec fn apply_fn() -> spec_fn(SpecApp, SpecField) -> Result<SpecApp, WireError> {
        |v: SpecApp, f: SpecField| Self::spec_apply(v, f)
    }

    /// The message `bytes` makes of `v`: its records applied in order, or the error
    /// that stops the reading.
    pub open spec fn spec_merge(v: SpecApp, bytes: Seq<u8>) -> Result<SpecApp, WireError> {
        let (w, stop) = merge_run(v, bytes, Self::apply_fn());
        match stop {
            None => Ok(w),
            Some(e) => Err(e),
        }
    }

    #[verifier::opaque]
    pub open spec fn spec_decode(bytes: Seq<u8>) -> Result<SpecApp, WireError> {
        Self::spec_merge(Self::spec_default(), bytes)
    }

    pub open spec fn view_all(xs: Seq<App>) -> Seq<SpecApp> {
        xs.map_values(|m: App| m@)
    }

    pub open spec fn view_opt(o: Option<App>) -> Option<SpecApp> {
        match o {
            Some(m) => Some(m@),
            None => None,
        }
    }

    pub open spec fn spec_encode_all(xs: Seq<SpecApp>) -> Seq<Seq<u8>> {
        xs.map_values(|m: SpecApp| Self::spec_encode(m))
    }

    pub open spec fn spec_encode_opt(o: Option<SpecApp>) -> Option<Seq<u8>> {
        match o {
            Some(m) => Some(Self::spec_encode(m)),
            None => None,
        }
    }

    /// The encoding of each element.
    pub fn encode_all(xs: &Vec<App>) -> (r: Vec<Vec<u8>>)
        ensures
            bytes_seq_view(r@) == Self::spec_encode_all(Self::view_all(xs@)),
    {
        let mut out: Vec<Vec<u8>> = Vec::new();
        let mut i: usize = 0;
        while i < xs.len()
            invariant
                i <= xs@.len(),
                out@.len() == i,
                forall|j: int| 0 <= j < i ==> #[trigger] out@[j]@ == Self::spec_encode(xs@[j]@),
            decreases xs@.len() - i,
        {
            let e = xs[i].encode_to_vec();
            out.push(e);
            i = i + 1;
        }
        assert(bytes_seq_view(out@) =~= Self::spec_encode_all(Self::view_all(xs@)));
        out
    }

    /// The encoding of the element, when there is one.
    pub fn encode_opt(o: &Option<App>) -> (r: Option<Vec<u8>>)
        ensures
            opt_bytes_view(r) == Self::spec_encode_opt(Self::view_opt(*o)),
    {
        match o {
            Some(m) => Some(m.encode_to_vec()),
            None => None,
        }
    }

    /// This message with one record applied to it, or, when the record is refused,
    /// the message unchanged and the reason.
    fn applied(self, f: &Field) -> (r: Result<Self, (Self, WireError)>)
        ensures
            match Self::spec_apply(self@, f@) {
                Ok(v) => r matches Ok(m) && m@ == v,
                Err(e) => r matches Err((m, x)) && x == e && m@ == self@,
            },
    {
        match f.number {
            1 => match read_u32(&f.value) {
                Ok(x) => Ok(Self { app_id: Some(x), ..self }),
                Err(e) => Err((self, e)),
            },
            2 => match read_u32(&f.value) {
                Ok(x) => Ok(Self { section_flags: Some(x), ..self }),
                Err(e) => Err((self, e)),
            },
            3 => match read_packed_u32(&f.value) {
                Ok(xs) => {
                    let mut m = self;
                    let mut xs = xs;
                    m.section_crc.append(&mut xs);
                    Ok(m)
                },
                Err(e) => Err((self, e)),
            },
            _ => Ok(self),
        }
    }

    /// Reads the records `bytes` holds into this message, in order. When a record does
    /// not parse or is refused, the reading stops there: the message keeps what the
    /// records before it gave, and the error is returned.
    pub fn merge(&mut self, bytes: &[u8]) -> (r: Result<(), WireError>)
        ensures
            final(self)@ == merge_run(old(self)@, bytes@, Self::apply_fn()).0,
            r == match merge_run(old(self)@, bytes@, Self::apply_fn()).1 {
                None => Ok::<(), WireError>(()),
                Some(e) => Err::<(), WireError>(e),
            },
    {
        let ghost total = merge_run(self@, bytes@, Self::apply_fn());
        let mut cur = Self::default();
        std::mem::swap(&mut cur, self);
        let mut pos: usize = 0;
        assert(bytes@.skip(0) =~= bytes@);
        while pos < bytes.len()
            invariant
                pos <= bytes@.len(),
                total == merge_run(old(self)@, bytes@, Self::apply_fn()),
                merge_run(cur@, bytes@.skip(pos as int), Self::apply_fn()) == total,
            decreases bytes@.len() - pos,
        {
            let ghost s = bytes@.skip(pos as int);
            proof {
                lemma_merge_run_step(cur@, s, Self::apply_fn());
                lemma_parse_field_len(s);
            }
            match read_field(bytes, pos) {
                Ok((f, end)) => {
                    assert(bytes@.skip(end as int) =~= s.skip((end - pos) as int));
                    match cur.applied(&f) {
                        Ok(m) => {
                            cur = m;
                        },
                        Err((m, e)) => {
                            *self = m;
                            return Err(e);
                        },
                    }
                    pos = end;
                },
                Err(e) => {
                    *self = cur;
                    return Err(e);
                },
            }
        }
        assert(bytes@.skip(pos as int) =~= Seq::<u8>::empty());
        proof {
            lemma_merge_run_empty(cur@, Self::apply_fn());
        }
        *self = cur;
        Ok(())
    }

    /// Decodes a message from its encoding.
    pub fn decode(bytes: &[u8]) -> (r: Result<Self, WireError>)
        ensures
            match Self::spec_decode(bytes@) {
                Ok(v) => r matches Ok(m) && m@ == v,
                Err(e) => r matches Err(x) && x == e,
            },
    {
        proof {
            reveal(App::spec_decode);
        }
        let mut m = Self::default();
        match m.merge(bytes) {
            Ok(()) => Ok(m),
            Err(e) => Err(e),
        }
    }

    /// The encoding of this message.
    pub fn encode_to_vec(&self) -> (r: Vec<u8>)
        ensures
            r@ == Self::spec_encode(self@),
    {
        let ghost v = self@;
        let mut out: Vec<u8> = Vec::new();
        let ghost p0 = Seq::<SpecField>::empty();
        put_opt_u32(&mut out, 1, self.app_id);
        let ghost p1 = p0 + opt_u32(1, v.app_id);
        proof {
            lemma_fields_bytes_concat(p0, opt_u32(1, v.app_id));
        }
        put_opt_u32(&mut out, 2, self.section_flags);
        let ghost p2 = p1 + opt_u32(2, v.section_flags);
        proof {
            lemma_fields_bytes_concat(p1, opt_u32(2, v.section_flags));
        }
        put_rep_u32(&mut out, 3, &self.section_crc);
        let ghost p3 = p2 + rep_u32(3, v.section_crc);
        proof {
            lemma_fields_bytes_concat(p2, rep_u32(3, v.section_crc));
        }
        proof {
            reveal(App::spec_encode);
        }
        assert(p3 == Self::spec_fields(v));
        out
    }

    /// Appends the encoding of this message to `out`.
    pub fn encode_raw(&self, out: &mut Vec<u8>)
        ensures
            final(out)@ == old(out)@ + Self::spec_encode(self@),
    {
        let mut b = self.encode_to_vec();
        out.append(&mut b);
    }

    /// The first `k` fields of `v`, the others as a fresh message has them.
    #[verifier::opaque]
    pub open spec fn spec_prefix(v: SpecApp, k: int) -> SpecApp {
        SpecApp {
            app_id: if 1 <= k { v.app_id } else { None },
            section_flags: if 2 <= k { v.section_flags } else { None },
            section_crc: if 3 <= k { v.section_crc } else { Seq::empty() },
        }
    }

    /// Reading field 1 back, after the fields before it.
    proof fn lemma_field_app_id(v: SpecApp)
        ensures
            fold_fields(Self::spec_prefix(v, 0), opt_u32(1, v.app_id), Self::apply_fn())
                == Ok::<SpecApp, WireError>(Self::spec_prefix(v, 1)),
    {
        reveal(App::spec_prefix);
        reveal(opt_u32);
        let apply = Self::apply_fn();
        let s = Self::spec_prefix(v, 0);
        lemma_fold_opt(s, 1, match v.app_id { Some(x) => Some(enc_u32(x)), None => None }, apply);
        if let Some(x) = v.app_id {
            lemma_u32_roundtrip(x);
        }
        assert(SpecApp { app_id: v.app_id, ..s } == Self::spec_prefix(v, 1));
    }

    /// Reading field 2 back, after the fields before it.
    proof fn lemma_field_section_flags(v: SpecApp)
        ensures
            fold_fields(Self::spec_prefix(v, 1), opt_u32(2, v.section_flags), Self::apply_fn())
                == Ok::<SpecApp, WireError>(Self::spec_prefix(v, 2)),
    {
        reveal(App::spec_prefix);
        reveal(opt_u32);
        let apply = Self::apply_fn();
        let s = Self::spec_prefix(v, 1);
        lemma_fold_opt(s, 2, match v.section_flags { Some(x) => Some(enc_u32(x)), None => None }, apply);
        if let Some(x) = v.section_flags {
            lemma_u32_roundtrip(x);
        }
        assert(SpecApp { section_flags: v.section_flags, ..s } == Self::spec_prefix(v, 2));
    }

    /// Reading field 3 back, after the fields before it.
    proof fn lemma_field_section_crc(v: SpecApp)
        ensures
            fold_fields(Self::spec_prefix(v, 2), rep_u32(3, v.section_crc), Self::apply_fn())
                == Ok::<SpecApp, WireError>(Self::spec_prefix(v, 3)),
    {
        reveal(App::spec_prefix);
        reveal(rep_u32);
        let apply = Self::apply_fn();
        let s = Self::spec_prefix(v, 2);
        let l = rep_u32(3, v.section_crc);
        let xs = v.section_crc;
        let st = Seq::new((xs.len() + 1) as nat, |j: int| SpecApp { section_crc: xs.take(j), ..s });
        assert forall|j: int| 0 <= j < l.len() implies #[trigger] apply(st[j], l[j]) == Ok::<SpecApp, WireError>(st[j + 1]) by {
            lemma_u32_roundtrip(xs[j]);
            assert(xs.take(j) + seq![xs[j]] =~= xs.take(j + 1));
        }
        lemma_fold_chain(l, st, apply);
        assert(xs.take(0) =~= Seq::<u32>::empty());
        assert(xs.take(xs.len() as int) =~= xs);
        assert(st[0] == s);
        assert(st[xs.len() as int] == Self::spec_prefix(v, 3));
    }

    /// Whether this message declares field number `n`.
    pub open spec fn declares(n: u32) -> bool {
        n == 1 || n == 2 || n == 3
    }

    /// A record with a number this message does not declare is passed over: well-formed
    /// bytes decode to the same message with such a record after them as without it.
    pub proof fn lemma_unknown_field(bytes: Seq<u8>, f: SpecField)
        requires
            parse_fields(bytes) is Ok,
            field_wf(f),
            !Self::declares(f.number),
        ensures
            Self::spec_decode(bytes + field_bytes(f)) == Self::spec_decode(bytes),
    {
        reveal(App::spec_decode);
        lemma_parse_fields_append(bytes, f);
        let fs = parse_fields(bytes).unwrap();
        let apply = Self::apply_fn();
        lemma_fold_concat(Self::spec_default(), fs, seq![f], apply);
        assert(fs.push(f) =~= fs + seq![f]);
        if let Ok(w) = fold_fields(Self::spec_default(), fs, apply) {
            lemma_fold_single(w, f, apply);
        }
        lemma_merge_run_fold(Self::spec_default(), bytes, apply);
        lemma_merge_run_fold(Self::spec_default(), bytes + field_bytes(f), apply);
    }

    /// Decoding the encoding of a message gives the message back.
    pub proof fn lemma_decode_encode(v: SpecApp)
        requires
            Self::spec_encode(v).len() <= u64::MAX,
        ensures
            Self::spec_decode(Self::spec_encode(v)) == Ok::<SpecApp, WireError>(v),
    {
        let apply = Self::apply_fn();
        let d = Self::spec_default();
        let p0 = Seq::<SpecField>::empty();
        let l1 = opt_u32(1, v.app_id);
        let p1 = p0 + l1;
        let l2 = opt_u32(2, v.section_flags);
        let p2 = p1 + l2;
        let l3 = rep_u32(3, v.section_crc);
        let p3 = p2 + l3;
        assert(parse_fields(Self::spec_encode(v)) == Ok::<Seq<SpecField>, WireError>(p3)) by {
            reveal(App::spec_encode);
            assert(numbers_ok(p0) && fields_wf(p0)) by {
                reveal(numbers_ok);
                reveal(fields_wf);
            }
            lemma_opt_u32_numbered(1, v.app_id);
            lemma_fields_wf_concat(p0, l1);
            lemma_opt_u32_numbered(2, v.section_flags);
            lemma_fields_wf_concat(p1, l2);
            lemma_rep_u32_numbered(3, v.section_crc);
            lemma_fields_wf_concat(p2, l3);
            assert(p3 == Self::spec_fields(v));
            lemma_fields_wf_from_len(p3);
            lemma_fields_roundtrip(p3);
        }
        assert(Self::spec_prefix(v, 0) == d) by {
            reveal(App::spec_prefix);
        }
        lemma_fold_empty(d, apply);
        lemma_fold_concat(d, p0, l1, apply);
        Self::lemma_field_app_id(v);
        lemma_fold_concat(d, p1, l2, apply);
        Self::lemma_field_section_flags(v);
        lemma_fold_concat(d, p2, l3, apply);
        Self::lemma_field_section_crc(v);
        assert(Self::spec_prefix(v, 3) == v) by {
            reveal(App::spec_prefix);
        }
        lemma_merge_run_fold(d, Self::spec_encode(v), apply);
        assert(Self::spec_decode(Self::spec_encode(v)) == Ok::<SpecApp, WireError>(v)) by {
            reveal(App::spec_decode);
        }
    }
}

} // verus!
