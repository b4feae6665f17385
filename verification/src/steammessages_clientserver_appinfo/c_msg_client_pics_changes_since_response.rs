//! Types nested inside `c_msg_client_pics_changes_since_response`.


use vstd::prelude::*;

use crate::codec::{
    bytes_seq_view, dec_bool, dec_u32, enc_bool, enc_u32, fold_fields, lemma_fold_concat,
    lemma_fold_empty, lemma_fold_opt, lemma_fold_single, lemma_merge_run_empty,
    lemma_merge_run_fold, lemma_merge_run_step, lemma_opt_bool_numbered, lemma_opt_u32_numbered,
    lemma_u32_roundtrip, merge_run, opt_bool, opt_bytes_view, opt_u32, put_opt_bool,
    put_opt_u32, read_bool, read_u32,
};

use crate::wire::fields::{
    field_bytes, field_wf, fields_bytes, fields_wf, lemma_fields_bytes_concat,
    lemma_fields_roundtrip, lemma_fields_wf_concat, lemma_fields_wf_from_len,
    lemma_parse_field_len, lemma_parse_fields_append, numbers_ok, parse_fields, read_field,
    Field, SpecField,
};
use crate::wire::varint::WireError;

verus! {

/// `PackageChange`, as Valve's schema declares it.
#[derive(Debug, Clone, PartialEq)]
pub struct PackageChange {
    /// Field 1.
    pub packageid: Option<u32>,
    /// Field 2.
    pub change_number: Option<u32>,
    /// Field 3.
    pub needs_token: Option<bool>,
}

/// What a `PackageChange` holds, as mathematical values.
#[verifier::ext_equal]
pub struct SpecPackageChange {
    pub packageid: Option<u32>,
    pub change_number: Option<u32>,
    pub needs_token: Option<bool>,
}

impl View for PackageChange {
    type V = SpecPackageChange;

    open spec fn view(&self) -> SpecPackageChange {
        SpecPackageChange {
            packageid: self.packageid,
            change_number: self.change_number,
            needs_token: self.needs_token,
        }
    }
}

impl Default for PackageChange {
    fn default() -> (r: Self)
        ensures
            r@ == PackageChange::spec_default(),
    {
        PackageChange {
            packageid: None,
            change_number: None,
            needs_token: None,
        }
    }
}

impl PackageChange {
    pub open spec fn spec_default() -> SpecPackageChange {
        SpecPackageChange {
            packageid: None,
            change_number: None,
            needs_token: None,
        }
    }

    /// The records a `PackageChange` is written as, in field order.
    pub open spec fn spec_fields(v: SpecPackageChange) -> Seq<SpecField> {
        Seq::<SpecField>::empty()
            + opt_u32(1, v.packageid)
            + opt_u32(2, v.change_number)
            + opt_bool(3, v.needs_token)
    }

    #[verifier::opaque]
    pub open spec fn spec_encode(v: SpecPackageChange) -> Seq<u8> {
        fields_bytes(Self::spec_fields(v))
    }

    /// What one record does to the message: a declared number sets or extends its
    /// field, any other number is left alone.
    pub open spec fn spec_apply(v: SpecPackageChange, f: SpecField) -> Result<SpecPackageChange, WireError> {
        match f.number {
            1 => match dec_u32(f.value) {
                Ok(x) => Ok(SpecPackageChange { packageid: Some(x), ..v }),
                Err(e) => Err(e),
            },
            2 => match dec_u32(f.value) {
                Ok(x) => Ok(SpecPackageChange { change_number: Some(x), ..v }),
                Err(e) => Err(e),
            },
            3 => match dec_bool(f.value) {
                Ok(x) => Ok(SpecPackageChange { needs_token: Some(x), ..v }),
                Err(e) => Err(e),
            },
            _ => Ok(v),
        }
    }

    pub open spec fn apply_fn() -> spec_fn(SpecPackageChange, SpecField) -> Result<SpecPackageChange, WireError> {
        |v: SpecPackageChange, f: SpecField| Self::spec_apply(v, f)
    }

    /// The message `bytes` makes of `v`: its records applied in order, or the error
    /// that stops the reading.
    pub open spec fn spec_merge(v: SpecPackageChange, bytes: Seq<u8>) -> Result<SpecPackageChange, WireError> {
        let (w, stop) = merge_run(v, bytes, Self::apply_fn());
        match stop {
            None => Ok(w),
            Some(e) => Err(e),
        }
    }

    #[verifier::opaque]
    pub open spec fn spec_decode(bytes: Seq<u8>) -> Result<SpecPackageChange, WireError> {
        Self::spec_merge(Self::spec_default(), bytes)
    }

    pub open spec fn view_all(xs: Seq<PackageChange>) -> Seq<SpecPackageChange> {
        xs.map_values(|m: PackageChange| m@)
    }

    pub open spec fn view_opt(o: Option<PackageChange>) -> Option<SpecPackageChange> {
        match o {
            Some(m) => Some(m@),
            None => None,
        }
    }

    pub open spec fn spec_encode_all(xs: Seq<SpecPackageChange>) -> Seq<Seq<u8>> {
        xs.map_values(|m: SpecPackageChange| Self::spec_encode(m))
    }

    pub open spec fn spec_encode_opt(o: Option<SpecPackageChange>) -> Option<Seq<u8>> {
        match o {
            Some(m) => Some(Self::spec_encode(m)),
            None => None,
        }
    }

    /// The encoding of each element.
    pub fn encode_all(xs: &Vec<PackageChange>) -> (r: Vec<Vec<u8>>)
        ensures
            bytes_seq_view(r@) == Self::spec_encode_all(Self::view_all(xs@)),
    {
        let mut out: Vec<Vec<u8>> = Vec::new();
        let mut i: usize = 0;
        while i < xs.len()
            invariant
                i <= xs@.len(),
                out@.len() == i,
                forall|j: int| 0 <= j < i ==> #[trigger] out@[j]@ == Self::spec_encode(xs@[j]@),
            decreases xs@.len() - i,
        {
            let e = xs[i].encode_to_vec();
            out.push(e);
            i = i + 1;
        }
        assert(bytes_seq_view(out@) =~= Self::spec_encode_all(Self::view_all(xs@)));
        out
    }

    /// The encoding of the element, when there is one.
    pub fn encode_opt(o: &Option<PackageChange>) -> (r: Option<Vec<u8>>)
        ensures
            opt_bytes_view(r) == Self::spec_encode_opt(Self::view_opt(*o)),
    {
        match o {
            Some(m) => Some(m.encode_to_vec()),
            None => None,
        }
    }

    /// This message with one record applied to it, or, when the record is refused,
    /// the message unchanged and the reason.
    fn applied(self, f: &Field) -> (r: Result<Self, (Self, WireError)>)
        ensures
            match Self::spec_apply(self@, f@) {
                Ok(v) => r matches Ok(m) && m@ == v,
                Err(e) => r matches Err((m, x)) && x == e && m@ == self@,
            },
    {
        match f.number {
            1 => match read_u32(&f.value) {
                Ok(x) => Ok(Self { packageid: Some(x), ..self }),
                Err(e) => Err((self, e)),
            },
            2 => match read_u32(&f.value) {
                Ok(x) => Ok(Self { change_number: Some(x), ..self }),
                Err(e) => Err((self, e)),
            },
            3 => match read_bool(&f.value) {
                Ok(x) => Ok(Self { needs_token: Some(x), ..self }),
                Err(e) => Err((self, e)),
            },
            _ => Ok(self),
        }
    }

    /// Reads the records `bytes` holds into this message, in order. When a record does
    /// not parse or is refused, the reading stops there: the message keeps what the
    /// records before it gave, and the error is returned.
    pub fn merge(&mut self, bytes: &[u8]) -> (r: Result<(), WireError>)
        ensures
            final(self)@ == merge_run(old(self)@, bytes@, Self::apply_fn()).0,
            r == match merge_run(old(self)@, bytes@, Self::apply_fn()).1 {
                None => Ok::<(), WireError>(()),
                Some(e) => Err::<(), WireError>(e),
            },
    {
        let ghost total = merge_run(self@, bytes@, Self::apply_fn());
        let mut cur = Self::default();
        std::mem::swap(&mut cur, self);
        let mut pos: usize = 0;
        assert(bytes@.skip(0) =~= bytes@);
        while pos < bytes.len()
            invariant
                pos <= bytes@.len(),
                total == merge_run(old(self)@, bytes@, Self::apply_fn()),
                merge_run(cur@, bytes@.skip(pos as int), Self::apply_fn()) == total,
            decreases bytes@.len() - pos,
        {
            let ghost s = bytes@.skip(pos as int);
            proof {
                lemma_merge_run_step(cur@, s, Self::apply_fn());
                lemma_parse_field_len(s);
            }
            match read_field(bytes, pos) {
                Ok((f, end)) => {
                    assert(bytes@.skip(end as int) =~= s.skip((end - pos) as int));
                    match cur.applied(&f) {
                        Ok(m) => {
                            cur = m;
                        },
                        Err((m, e)) => {
                            *self = m;
                            return Err(e);
                        },
                    }
                    pos = end;
                },
                Err(e) => {
                    *self = cur;
                    return Err(e);
                },
            }
        }
        assert(bytes@.skip(pos as int) =~= Seq::<u8>::empty());
        proof {
            lemma_merge_run_empty(cur@, Self::apply_fn());
        }
        *self = cur;
        Ok(())
    }

    /// Decodes a message from its encoding.
    pub fn decode(bytes: &[u8]) -> (r: Result<Self, WireError>)
        ensures
            match Self::spec_decode(bytes@) {
                Ok(v) => r matches Ok(m) && m@ == v,
                Err(e) => r matches Err(x) && x == e,
            },
    {
        proof {
            reveal(PackageChange::spec_decode);
        }
        let mut m = Self::default();
        match m.merge(bytes) {
            Ok(()) => Ok(m),
            Err(e) => Err(e),
        }
    }

    /// The encoding of this message.
    pub fn encode_to_vec(&self) -> (r: Vec<u8>)
        ensures
            r@ == Self::spec_encode(self@),
    {
        let ghost v = self@;
        let mut out: Vec<u8> = Vec::new();
        let ghost p0 = Seq::<SpecField>::empty();
        put_opt_u32(&mut out, 1, self.packageid);
        let ghost p1 = p0 + opt_u32(1, v.packageid);
        proof {
            lemma_fields_bytes_concat(p0, opt_u32(1, v.packageid));
        }
        put_opt_u32(&mut out, 2, self.change_number);
        let ghost p2 = p1 + opt_u32(2, v.change_number);
        proof {
            lemma_fields_bytes_concat(p1, opt_u32(2, v.change_number));
        }
        put_opt_bool(&mut out, 3, self.needs_token);
        let ghost p3 = p2 + opt_bool(3, v.needs_token);
        proof {
            lemma_fields_bytes_concat(p2, opt_bool(3, v.needs_token));
        }
        proof {
            reveal(PackageChange::spec_encode);
        }
        assert(p3 == Self::spec_fields(v));
        out
    }

    /// Appends the encoding of this message to `out`.
    pub fn encode_raw(&self, out: &mut Vec<u8>)
        ensures
            final(out)@ == old(out)@ + Self::spec_encode(self@),
    {
        let mut b = self.encode_to_vec();
        out.append(&mut b);
    }

    /// The first `k` fields of `v`, the others as a fresh message has them.
    #[verifier::opaque]
    pub open spec fn spec_prefix(v: SpecPackageChange, k: int) -> SpecPackageChange {
        SpecPackageChange {
            packageid: if 1 <= k { v.packageid } else { None },
            change_number: if 2 <= k { v.change_number } else { None },
            needs_token: if 3 <= k { v.needs_token } else { None },
        }
    }

    /// Reading field 1 back, after the fields before it.
    proof fn lemma_field_packageid(v: SpecPackageChange)
        ensures
            fold_fields(Self::spec_prefix(v, 0), opt_u32(1, v.packageid), Self::apply_fn())
                == Ok::<SpecPackageChange, WireError>(Self::spec_prefix(v, 1)),
    {
        reveal(PackageChange::spec_prefix);
        reveal(opt_u32);
        let apply = Self::apply_fn();
        let s = Self::spec_prefix(v, 0);
        lemma_fold_opt(s, 1, match v.packageid { Some(x) => Some(enc_u32(x)), None => None }, apply);
        if let Some(x) = v.packageid {
            lemma_u32_roundtrip(x);
        }
        assert(SpecPackageChange { packageid: v.packageid, ..s } == Self::spec_prefix(v, 1));
    }

    /// Reading field 2 back, after the fields before it.
    proof fn lemma_field_change_number(v: SpecPackageChange)
        ensures
            fold_fields(Self::spec_prefix(v, 1), opt_u32(2, v.change_number), Self::apply_fn())
                == Ok::<SpecPackageChange, WireError>(Self::spec_prefix(v, 2)),
    {
        reveal(PackageChange::spec_prefix);
        reveal(opt_u32);
        let apply = Self::apply_fn();
        let s = Self::spec_prefix(v, 1);
        lemma_fold_opt(s, 2, match v.change_number { Some(x) => Some(enc_u32(x)), None => None }, apply);
        if let Some(x) = v.change_number {
            lemma_u32_roundtrip(x);
        }
        assert(SpecPackageChange { change_number: v.change_number, ..s } == Self::spec_prefix(v, 2));
    }

    /// Reading field 3 back, after the fields before it.
    proof fn lemma_field_needs_token(v: SpecPackageChange)
        ensures
            fold_fields(Self::spec_prefix(v, 2), opt_bool(3, v.needs_token), Self::apply_fn())
                == Ok::<SpecPackageChange, WireError>(Self::spec_prefix(v, 3)),
    {
        reveal(PackageChange::spec_prefix);
        reveal(opt_bool);
        let apply = Self::apply_fn();
        let s = Self::spec_prefix(v, 2);
        lemma_fold_opt(s, 3, match v.needs_token { Some(x) => Some(enc_bool(x)), None => None }, apply);
        assert(SpecPackageChange { needs_token: v.needs_token, ..s } == Self::spec_prefix(v, 3));
    }

    /// Whether this message declares field number `n`.
    pub open spec fn declares(n: u32) -> bool {
        n == 1 || n == 2 || n == 3
    }

    /// A record with a number this message does not declare is passed over: well-formed
    /// bytes decode to the same message with such a record after them as without it.
    pub proof fn lemma_unknown_field(bytes: Seq<u8>, f: SpecField)
        requires
            parse_fields(bytes) is Ok,
            field_wf(f),
            !Self::declares(f.number),
        ensures
            Self::spec_decode(bytes + field_bytes(f)) == Self::spec_decode(bytes),
    {
        reveal(PackageChange::spec_decode);
        lemma_parse_fields_append(bytes, f);
        let fs = parse_fields(bytes).unwrap();
        let apply = Self::apply_fn();
        lemma_fold_concat(Self::spec_default(), fs, seq![f], apply);
        assert(fs.push(f) =~= fs + seq![f]);
        if let Ok(w) = fold_fields(Self::spec_default(), fs, apply) {
            lemma_fold_single(w, f, apply);
        }
        lemma_merge_run_fold(Self::spec_default(), bytes, apply);
        lemma_merge_run_fold(Self::spec_default(), bytes + field_bytes(f), apply);
    }

    /// Decoding the encoding of a message gives the message back.
    pub proof fn lemma_decode_encode(v: SpecPackageChange)
        requires
            Self::spec_encode(v).len() <= u64::MAX,
        ensures
            Self::spec_decode(Self::spec_encode(v)) == Ok::<SpecPackageChange, WireError>(v),
    {
        let apply = Self::apply_fn();
        let d = Self::spec_default();
        let p0 = Seq::<SpecField>::empty();
        let l1 = opt_u32(1, v.packageid);
        let p1 = p0 + l1;
        let l2 = opt_u32(2, v.change_number);
        let p2 = p1 + l2;
        let l3 = opt_bool(3, v.needs_token);
        let p3 = p2 + l3;
        assert(parse_fields(Self::spec_encode(v)) == Ok::<Seq<SpecField>, WireError>(p3)) by {
            reveal(PackageChange::spec_encode);
            assert(numbers_ok(p0) && fields_wf(p0)) by {
                reveal(numbers_ok);
                reveal(fields_wf);
            }
            lemma_opt_u32_numbered(1, v.packageid);
            lemma_fields_wf_concat(p0, l1);
            lemma_opt_u32_numbered(2, v.change_number);
            lemma_fields_wf_concat(p1, l2);
            lemma_opt_bool_numbered(3, v.needs_token);
            lemma_fields_wf_concat(p2, l3);
            assert(p3 == Self::spec_fields(v));
            lemma_fields_wf_from_len(p3);
            lemma_fields_roundtrip(p3);
        }
        assert(Self::spec_prefix(v, 0) == d) by {
            reveal(PackageChange::spec_prefix);
        }
        lemma_fold_empty(d, apply);
        lemma_fold_concat(d, p0, l1, apply);
        Self::lemma_field_packageid(v);
        lemma_fold_concat(d, p1, l2, apply);
        Self::lemma_field_change_number(v);
        lemma_fold_concat(d, p2, l3, apply);
        Self::lemma_field_needs_token(v);
        assert(Self::spec_prefix(v, 3) == v) by {
            reveal(PackageChange::spec_prefix);
        }
        lemma_merge_run_fold(d, Self::spec_encode(v), apply);
        assert(Self::spec_decode(Self::spec_encode(v)) == Ok::<SpecPackageChange, WireError>(v)) by {
            reveal(PackageChange::spec_decode);
        }
    }
}

/// `AppChange`, as Valve's schema declares it.
#[derive(Debug, Clone, PartialEq)]
pub struct AppChange {
    /// Field 1.
    pub appid: Option<u32>,
    /// Field 2.
    pub change_number: Option<u32>,
    /// Field 3.
    pub needs_token: Option<bool>,
}

/// What a `AppChange` holds, as mathematical values.
#[verifier::ext_equal]
pub struct SpecAppChange {
    pub appid: Option<u32>,
    pub change_number: Option<u32>,
    pub needs_token: Option<bool>,
}

impl View for AppChange {
    type V = SpecAppChange;

    open spec fn view(&self) -> SpecAppChange {
        SpecAppChange {
            appid: self.appid,
            change_number: self.change_number,
            needs_token: self.needs_token,
        }
    }
}

impl Default for AppChange {
    fn default() -> (r: Self)
        ensures
            r@ == AppChange::spec_default(),
    {
        AppChange {
            appid: None,
            change_number: None,
            needs_token: None,
        }
    }
}

impl AppChange {
    pub open spec fn spec_default() -> SpecAppChange {
        SpecAppChange {
            appid: None,
            change_number: None,
            needs_token: None,
        }
    }

    /// The records a `AppChange` is written as, in field order.
    pub open spec fn spec_fields(v: SpecAppChange) -> Seq<SpecField> {
        Seq::<SpecField>::empty()
            + opt_u32(1, v.appid)
            + opt_u32(2, v.change_number)
            + opt_bool(3, v.needs_token)
    }

    #[verifier::opaque]
    pub open spec fn spec_encode(v: SpecAppChange) -> Seq<u8> {
        fields_bytes(Self::spec_fields(v))
    }

    /// What one record does to the message: a declared number sets or extends its
    /// field, any other number is left alone.
    pub open spec fn spec_apply(v: SpecAppChange, f: SpecField) -> Result<SpecAppChange, WireError> {
        match f.number {
            1 => match dec_u32(f.value) {
                Ok(x) => Ok(SpecAppChange { appid: Some(x), ..v }),
                Err(e) => Err(e),
            },
            2 => match dec_u32(f.value) {
                Ok(x) => Ok(SpecAppChange { change_number: Some(x), ..v }),
                Err(e) => Err(e),
            },
            3 => match dec_bool(f.value) {
                Ok(x) => Ok(SpecAppChange { needs_token: Some(x), ..v }),
                Err(e) => Err(e),
            },
            _ => Ok(v),
        }
    }

    pub open spec fn apply_fn() -> spec_fn(SpecAppChange, SpecField) -> Result<SpecAppChange, WireError> {
        |v: SpecAppChange, f: SpecField| Self::spec_apply(v, f)
    }

    /// The message `bytes` makes of `v`: its records applied in order, or the error
    /// that stops the reading.
    pub open spec fn spec_merge(v: SpecAppChange, bytes: Seq<u8>) -> Result<SpecAppChange, WireError> {
        let (w, stop) = merge_run(v, bytes, Self::apply_fn());
        match stop {
            None => Ok(w),
            Some(e) => Err(e),
        }
    }

    #[verifier::opaque]
    pub open spec fn spec_decode(bytes: Seq<u8>) -> Result<SpecAppChange, WireError> {
        Self::spec_merge(Self::spec_default(), bytes)
    }

    pub open spec fn view_all(xs: Seq<AppChange>) -> Seq<SpecAppChange> {
        xs.map_values(|m: AppChange| m@)
    }

    pub open spec fn view_opt(o: Option<AppChange>) -> Option<SpecAppChange> {
        match o {
            Some(m) => Some(m@),
            None => None,
        }
    }

    pub open spec fn spec_encode_all(xs: Seq<SpecAppChange>) -> Seq<Seq<u8>> {
        xs.map_values(|m: SpecAppChange| Self::spec_encode(m))
    }

    pub open spec fn spec_encode_opt(o: Option<SpecAppChange>) -> Option<Seq<u8>> {
        match o {
            Some(m) => Some(Self::spec_encode(m)),
            None => None,
        }
    }

    /// The encoding of each element.
    pub fn encode_all(xs: &Vec<AppChange>) -> (r: Vec<Vec<u8>>)
        ensures
            bytes_seq_view(r@) == Self::spec_encode_all(Self::view_all(xs@)),
    {
        let mut out: Vec<Vec<u8>> = Vec::new();
        let mut i: usize = 0;
        while i < xs.len()
            invariant
                i <= xs@.len(),
                out@.len() == i,
                forall|j: int| 0 <= j < i ==> #[trigger] out@[j]@ == Self::spec_encode(xs@[j]@),
            decreases xs@.len() - i,
        {
            let e = xs[i].encode_to_vec();
            out.push(e);
            i = i + 1;
        }
        assert(bytes_seq_view(out@) =~= Self::spec_encode_all(Self::view_all(xs@)));
        out
    }

    /// The encoding of the element, when there is one.
    pub fn encode_opt(o: &Option<AppChange>) -> (r: Option<Vec<u8>>)
        ensures
            opt_bytes_view(r) == Self::spec_encode_opt(Self::view_opt(*o)),
    {
        match o {
            Some(m) => Some(m.encode_to_vec()),
            None => None,
        }
    }

    /// This message with one record applied to it, or, when the record is refused,
    /// the message unchanged and the reason.
    fn applied(self, f: &Field) -> (r: Result<Self, (Self, WireError)>)
        ensures
            match Self::spec_apply(self@, f@) {
                Ok(v) => r matches Ok(m) && m@ == v,
                Err(e) => r matches Err((m, x)) && x == e && m@ == self@,
            },
    {
        match f.number {
            1 => match read_u32(&f.value) {
                Ok(x) => Ok(Self { appid: Some(x), ..self }),
                Err(e) => Err((self, e)),
            },
            2 => match read_u32(&f.value) {
                Ok(x) => Ok(Self { change_number: Some(x), ..self }),
                Err(e) => Err((self, e)),
            },
            3 => match read_bool(&f.value) {
                Ok(x) => Ok(Self { needs_token: Some(x), ..self }),
                Err(e) => Err((self, e)),
            },
            _ => Ok(self),
        }
    }

    /// Reads the records `bytes` holds into this message, in order. When a record does
    /// not parse or is refused, the reading stops there: the message keeps what the
    /// records before it gave, and the error is returned.
    pub fn merge(&mut self, bytes: &[u8]) -> (r: Result<(), WireError>)
        ensures
            final(self)@ == merge_run(old(self)@, bytes@, Self::apply_fn()).0,
            r == match merge_run(old(self)@, bytes@, Self::apply_fn()).1 {
                None => Ok::<(), WireError>(()),
                Some(e) => Err::<(), WireError>(e),
            },
    {
        let ghost total = merge_run(self@, bytes@, Self::apply_fn());
        let mut cur = Self::default();
        std::mem::swap(&mut cur, self);
        let mut pos: usize = 0;
        assert(bytes@.skip(0) =~= bytes@);
        while pos < bytes.len()
            invariant
                pos <= bytes@.len(),
                total == merge_run(old(self)@, bytes@, Self::apply_fn()),
                merge_run(cur@, bytes@.skip(pos as int), Self::apply_fn()) == total,
            decreases bytes@.len() - pos,
        {
            let ghost s = bytes@.skip(pos as int);
            proof {
                lemma_merge_run_step(cur@, s, Self::apply_fn());
                lemma_parse_field_len(s);
            }
            match read_field(bytes, pos) {
                Ok((f, end)) => {
                    assert(bytes@.skip(end as int) =~= s.skip((end - pos) as int));
                    match cur.applied(&f) {
                        Ok(m) => {
                            cur = m;
                        },
                        Err((m, e)) => {
                            *self = m;
                            return Err(e);
                        },
                    }
                    pos = end;
                },
                Err(e) => {
                    *self = cur;
                    return Err(e);
                },
            }
        }
        assert(bytes@.skip(pos as int) =~= Seq::<u8>::empty());
        proof {
            lemma_merge_run_empty(cur@, Self::apply_fn());
        }
        *self = cur;
        Ok(())
    }

    /// Decodes a message from its encoding.
    pub fn decode(bytes: &[u8]) -> (r: Result<Self, WireError>)
        ensures
            match Self::spec_decode(bytes@) {
                Ok(v) => r matches Ok(m) && m@ == v,
                Err(e) => r matches Err(x) && x == e,
            },
    {
        proof {
            reveal(AppChange::spec_decode);
        }
        let mut m = Self::default();
        match m.merge(bytes) {
            Ok(()) => Ok(m),
            Err(e) => Err(e),
        }
    }

    /// The encoding of this message.
    pub fn encode_to_vec(&self) -> (r: Vec<u8>)
        ensures
            r@ == Self::spec_encode(self@),
    {
        let ghost v = self@;
        let mut out: Vec<u8> = Vec::new();
        let ghost p0 = Seq::<SpecField>::empty();
        put_opt_u32(&mut out, 1, self.appid);
        let ghost p1 = p0 + opt_u32(1, v.appid);
        proof {
            lemma_fields_bytes_concat(p0, opt_u32(1, v.appid));
        }
        put_opt_u32(&mut out, 2, self.change_number);
        let ghost p2 = p1 + opt_u32(2, v.change_number);
        proof {
            lemma_fields_bytes_concat(p1, opt_u32(2, v.change_number));
        }
        put_opt_bool(&mut out, 3, self.needs_token);
        let ghost p3 = p2 + opt_bool(3, v.needs_token);
        proof {
            lemma_fields_bytes_concat(p2, opt_bool(3, v.needs_token));
        }
        proof {
            reveal(AppChange::spec_encode);
        }
        assert(p3 == Self::spec_fields(v));
        out
    }

    /// Appends the encoding of this message to `out`.
    pub fn encode_raw(&self, out: &mut Vec<u8>)
        ensures
            final(out)@ == old(out)@ + Self::spec_encode(self@),
    {
        let mut b = self.encode_to_vec();
        out.append(&mut b);
    }

    /// The first `k` fields of `v`, the others as a fresh message has them.
    #[verifier::opaque]
    pub open spec fn spec_prefix(v: SpecAppChange, k: int) -> SpecAppChange {
        SpecAppChange {
            appid: if 1 <= k { v.appid } else { None },
            change_number: if 2 <= k { v.change_number } else { None },
            needs_token: if 3 <= k { v.needs_token } else { None },
        }
    }

    /// Reading field 1 back, after the fields before it.
    proof fn lemma_field_appid(v: SpecAppChange)
        ensures
            fold_fields(Self::spec_prefix(v, 0), opt_u32(1, v.appid), Self::apply_fn())
                == Ok::<SpecAppChange, WireError>(Self::spec_prefix(v, 1)),
    {
        reveal(AppChange::spec_prefix);
        reveal(opt_u32);
        let apply = Self::apply_fn();
        let s = Self::spec_prefix(v, 0);
        lemma_fold_opt(s, 1, match v.appid { Some(x) => Some(enc_u32(x)), None => None }, apply);
        if let Some(x) = v.appid {
            lemma_u32_roundtrip(x);
        }
        assert(SpecAppChange { appid: v.appid, ..s } == Self::spec_prefix(v, 1));
    }

    /// Reading field 2 back, after the fields before it.
    proof fn lemma_field_change_number(v: SpecAppChange)
        ensures
            fold_fields(Self::spec_prefix(v, 1), opt_u32(2, v.change_number), Self::apply_fn())
                == Ok::<SpecAppChange, WireError>(Self::spec_prefix(v, 2)),
    {
        reveal(AppChange::spec_prefix);
        reveal(opt_u32);
        let apply = Self::apply_fn();
        let s = Self::spec_prefix(v, 1);
        lemma_fold_opt(s, 2, match v.change_number { Some(x) => Some(enc_u32(x)), None => None }, apply);
        if let Some(x) = v.change_number {
            lemma_u32_roundtrip(x);
        }
        assert(SpecAppChange { change_number: v.change_number, ..s } == Self::spec_prefix(v, 2));
    }

    /// Reading field 3 back, after the fields before it.
    proof fn lemma_field_needs_token(v: SpecAppChange)
        ensures
            fold_fields(Self::spec_prefix(v, 2), opt_bool(3, v.needs_token), Self::apply_fn())
                == Ok::<SpecAppChange, WireError>(Self::spec_prefix(v, 3)),
    {
        reveal(AppChange::spec_prefix);
        reveal(opt_bool);
        let apply = Self::apply_fn();
        let s = Self::spec_prefix(v, 2);
        lemma_fold_opt(s, 3, match v.needs_token { Some(x) => Some(enc_bool(x)), None => None }, apply);
        assert(SpecAppChange { needs_token: v.needs_token, ..s } == Self::spec_prefix(v, 3));
    }

    /// Whether this message declares field number `n`.
    pub open spec fn declares(n: u32) -> bool {
        n == 1 || n == 2 || n == 3
    }

    /// A record with a number this message does not declare is passed over: well-formed
    /// bytes decode to the same message with such a record after them as without it.
    pub proof fn lemma_unknown_field(bytes: Seq<u8>, f: SpecField)
        requires
            parse_fields(bytes) is Ok,
            field_wf(f),
            !Self::declares(f.number),
        ensures
            Self::spec_decode(bytes + field_bytes(f)) == Self::spec_decode(bytes),
    {
        reveal(AppChange::spec_decode);
        lemma_parse_fields_append(bytes, f);
        let fs = parse_fields(bytes).unwrap();
        let apply = Self::apply_fn();
        lemma_fold_concat(Self::spec_default(), fs, seq![f], apply);
        assert(fs.push(f) =~= fs + seq![f]);
        if let Ok(w) = fold_fields(Self::spec_default(), fs, apply) {
            lemma_fold_single(w, f, apply);
        }
        lemma_merge_run_fold(Self::spec_default(), bytes, apply);
        lemma_merge_run_fold(Self::spec_default(), bytes + field_bytes(f), apply);
    }

    /// Decoding the encoding of a message gives the message back.
    pub proof fn lemma_decode_encode(v: SpecAppChange)
        requires
            Self::spec_encode(v).len() <= u64::MAX,
        ensures
            Self::spec_decode(Self::spec_encode(v)) == Ok::<SpecAppChange, WireError>(v),
    {
        let apply = Self::apply_fn();
        let d = Self::spec_default();
        let p0 = Seq::<SpecField>::empty();
        let l1 = opt_u32(1, v.appid);
        let p1 = p0 + l1;
        let l2 = opt_u32(2, v.change_number);
        let p2 = p1 + l2;
        let l3 = opt_bool(3, v.needs_token);
        let p3 = p2 + l3;
        assert(parse_fields(Self::spec_encode(v)) == Ok::<Seq<SpecField>, WireError>(p3)) by {
            reveal(AppChange::spec_encode);
            assert(numbers_ok(p0) && fields_wf(p0)) by {
                reveal(numbers_ok);
                reveal(fields_wf);
            }
            lemma_opt_u32_numbered(1, v.appid);
            lemma_fields_wf_concat(p0, l1);
            lemma_opt_u32_numbered(2, v.change_number);
            lemma_fields_wf_concat(p1, l2);
            lemma_opt_bool_numbered(3, v.needs_token);
            lemma_fields_wf_concat(p2, l3);
            assert(p3 == Self::spec_fields(v));
            lemma_fields_wf_from_len(p3);
            lemma_fields_roundtrip(p3);
        }
        assert(Self::spec_prefix(v, 0) == d) by {
            reveal(AppChange::spec_prefix);
        }
        lemma_fold_empty(d, apply);
        lemma_fold_concat(d, p0, l1, apply);
        Self::lemma_field_appid(v);
        lemma_fold_concat(d, p1, l2, apply);
        Self::lemma_field_change_number(v);
        lemma_fold_concat(d, p2, l3, apply);
        Self::lemma_field_needs_token(v);
        assert(Self::spec_prefix(v, 3) == v) by {
            reveal(AppChange::spec_prefix);
        }
        lemma_merge_run_fold(d, Self::spec_encode(v), apply);
        assert(Self::spec_decode(Self::spec_encode(v)) == Ok::<SpecAppChange, WireError>(v)) by {
            reveal(AppChange::spec_decode);
        }
    }
}

} // verus!
