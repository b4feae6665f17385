//! Messages and enums of `steammessages_publishedfile.steamclient.proto`.

#![allow(non_camel_case_types, non_snake_case, non_upper_case_globals)]

pub mod published_file_details;
pub mod c_published_file_get_item_info_request;
pub mod c_published_file_get_item_info_response;
pub mod c_published_file_get_user_files_request;
pub mod c_published_file_get_user_files_response;
pub mod c_published_file_are_files_in_subscription_list_response;
pub mod c_published_file_get_change_history_response;
pub mod c_published_file_query_files_request;
pub mod c_published_file_get_app_relationships_response;
pub mod c_published_file_get_app_relationships_batched_response;
pub mod c_published_file_set_playtime_for_controller_configs_request;
pub mod c_published_file_get_user_vote_summary_response;
pub mod c_published_file_get_item_changes_response;
pub mod c_published_file_get_content_descriptors_response;
pub mod c_published_file_file_subscribed_notification;

use std::cmp::Ordering;
use vstd::prelude::*;
use vstd::std_specs::cmp::PartialOrdSpecImpl;
use vstd::std_specs::convert::FromSpecImpl;

use crate::codec::{
    bytes_seq_view, dec_bool, dec_bytes, dec_fixed32, dec_fixed64, dec_i32, dec_packed_fixed64,
    dec_packed_i32, dec_packed_u32, dec_packed_varint, dec_string, dec_u32, dec_u64, enc_bool,
    enc_bytes, enc_fixed32, enc_fixed64, enc_i32, enc_string, enc_u32, enc_u64, fold_fields,
    lemma_fold_chain, lemma_fold_concat, lemma_fold_empty, lemma_fold_opt, lemma_fold_single,
    lemma_i32_roundtrip, lemma_merge_run_empty, lemma_merge_run_fold, lemma_merge_run_step,
    lemma_opt_bool_numbered, lemma_opt_bytes_numbered, lemma_opt_fixed32_numbered,
    lemma_opt_fixed64_numbered, lemma_opt_i32_numbered, lemma_opt_string_numbered,
    lemma_opt_u32_numbered, lemma_opt_u64_numbered, lemma_rep_bytes_numbered,
    lemma_rep_fixed64_numbered, lemma_rep_i32_numbered, lemma_rep_string_numbered,
    lemma_rep_u32_numbered, lemma_rep_u64_numbered, lemma_string_roundtrip, lemma_u32_roundtrip,
    lemma_u64_roundtrip, merge_run, opt_bool, opt_bytes, opt_bytes_view, opt_fixed32,
    opt_fixed64, opt_i32, opt_string, opt_string_view, opt_u32, opt_u64, put_opt_bool,
    put_opt_bytes, put_opt_fixed32, put_opt_fixed64, put_opt_i32, put_opt_string, put_opt_u32,
    put_opt_varint, put_rep_bytes, put_rep_fixed64, put_rep_i32, put_rep_string, put_rep_u32,
    put_rep_u64, read_bool, read_fixed32, read_fixed64, read_i32, read_packed_fixed64,
    read_packed_i32, read_packed_u32, read_packed_varints, read_payload, read_string, read_u32,
    read_u64, rep_bytes, rep_fixed64, rep_i32, rep_string, rep_u32, rep_u64, strings_view,
};
use crate::rpc::Rpc;
use crate::wire::fields::{
    field_bytes, field_wf, fields_bytes, fields_wf, lemma_fields_bytes_concat,
    lemma_fields_roundtrip, lemma_fields_wf_concat, lemma_fields_wf_from_len,
    lemma_parse_field_len, lemma_parse_fields_append, numbers_ok, parse_fields, read_field,
    Field, SpecField,
};
use crate::wire::varint::WireError;

verus! {

/// `EPublishedFileRevision`, as a newtype so an unrecognised value round-trips instead of
/// being rejected. Valve adds values without warning.
#[derive(Debug, Clone, Copy, PartialEq, Eq, Ord, Hash, Structural)]
pub struct EPublishedFileRevision(pub i32);

impl EPublishedFileRevision {
    /// `k_EPublishedFileRevision_Default` = `0`
    #[allow(non_snake_case)]
    pub fn k_EPublishedFileRevision_Default() -> (r: Self)
        ensures
            r.0 == 0,
    {
        Self(0)
    }

    /// `k_EPublishedFileRevision_Latest` = `1`
    #[allow(non_snake_case)]
    pub fn k_EPublishedFileRevision_Latest() -> (r: Self)
        ensures
            r.0 == 1,
    {
        Self(1)
    }

    /// `k_EPublishedFileRevision_ApprovedSnapshot` = `2`
    #[allow(non_snake_case)]
    pub fn k_EPublishedFileRevision_ApprovedSnapshot() -> (r: Self)
        ensures
            r.0 == 2,
    {
        Self(2)
    }

    /// `k_EPublishedFileRevision_ApprovedSnapshot_China` = `3`
    #[allow(non_snake_case)]
    pub fn k_EPublishedFileRevision_ApprovedSnapshot_China() -> (r: Self)
        ensures
            r.0 == 3,
    {
        Self(3)
    }

    /// `k_EPublishedFileRevision_RejectedSnapshot` = `4`
    #[allow(non_snake_case)]
    pub fn k_EPublishedFileRevision_RejectedSnapshot() -> (r: Self)
        ensures
            r.0 == 4,
    {
        Self(4)
    }

    /// `k_EPublishedFileRevision_RejectedSnapshot_China` = `5`
    #[allow(non_snake_case)]
    pub fn k_EPublishedFileRevision_RejectedSnapshot_China() -> (r: Self)
        ensures
            r.0 == 5,
    {
        Self(5)
    }

    /// `k_EPublishedFileRevision_AuthorSnapshot` = `6`
    #[allow(non_snake_case)]
    pub fn k_EPublishedFileRevision_AuthorSnapshot() -> (r: Self)
        ensures
            r.0 == 6,
    {
        Self(6)
    }

    /// The underlying value, as it appears on the wire.
    pub fn value(self) -> (r: i32)
        ensures
            r == self.0,
    {
        self.0
    }

    pub open spec fn values(xs: Seq<Self>) -> Seq<i32> {
        xs.map_values(|e: Self| e.0)
    }

    /// Wraps each wire value.
    pub fn from_values(xs: &Vec<i32>) -> (r: Vec<Self>)
        ensures
            Self::values(r@) == xs@,
    {
        let mut out: Vec<Self> = Vec::new();
        let mut i: usize = 0;
        while i < xs.len()
            invariant
                i <= xs@.len(),
                out@.len() == i,
                forall|j: int| 0 <= j < i ==> #[trigger] out@[j].0 == xs@[j],
            decreases xs@.len() - i,
        {
            out.push(Self(xs[i]));
            i = i + 1;
        }
        assert(Self::values(out@) =~= xs@);
        out
    }

    /// The wire value of each element.
    pub fn values_of(xs: &Vec<Self>) -> (r: Vec<i32>)
        ensures
            r@ == Self::values(xs@),
    {
        let mut out: Vec<i32> = Vec::new();
        let mut i: usize = 0;
        while i < xs.len()
            invariant
                i <= xs@.len(),
                out@ =~= Self::values(xs@.take(i as int)),
            decreases xs@.len() - i,
        {
            out.push(xs[i].0);
            i = i + 1;
            assert(out@ =~= Self::values(xs@.take(i as int)));
        }
        assert(xs@.take(i as int) =~= xs@);
        out
    }
}

impl From<i32> for EPublishedFileRevision {
    fn from(value: i32) -> Self {
        Self(value)
    }
}

impl FromSpecImpl<i32> for EPublishedFileRevision {
    open spec fn obeys_from_spec() -> bool {
        true
    }

    open spec fn from_spec(v: i32) -> Self {
        EPublishedFileRevision(v)
    }
}

/// A fresh value is `0`, the value the schema lists first.
impl Default for EPublishedFileRevision {
    fn default() -> (r: Self)
        ensures
            r.0 == 0,
    {
        Self(0)
    }
}

/// Values are ordered by their wire value.
impl PartialOrd for EPublishedFileRevision {
    fn partial_cmp(&self, other: &Self) -> (r: Option<Ordering>) {
        if self.0 < other.0 {
            Some(Ordering::Less)
        } else if self.0 == other.0 {
            Some(Ordering::Equal)
        } else {
            Some(Ordering::Greater)
        }
    }
}

impl PartialOrdSpecImpl for EPublishedFileRevision {
    open spec fn obeys_partial_cmp_spec() -> bool {
        true
    }

    open spec fn partial_cmp_spec(&self, other: &Self) -> Option<Ordering> {
        if self.0 < other.0 {
            Some(Ordering::Less)
        } else if self.0 == other.0 {
            Some(Ordering::Equal)
        } else {
            Some(Ordering::Greater)
        }
    }
}

/// `EPublishedFileForSaleStatus`, as a newtype so an unrecognised value round-trips instead of
/// being rejected. Valve adds values without warning.
#[derive(Debug, Clone, Copy, PartialEq, Eq, Ord, Hash, Structural)]
pub struct EPublishedFileForSaleStatus(pub i32);

impl EPublishedFileForSaleStatus {
    /// `k_PFFSS_NotForSale` = `0`
    #[allow(non_snake_case)]
    pub fn k_PFFSS_NotForSale() -> (r: Self)
        ensures
            r.0 == 0,
    {
        Self(0)
    }

    /// `k_PFFSS_PendingApproval` = `1`
    #[allow(non_snake_case)]
    pub fn k_PFFSS_PendingApproval() -> (r: Self)
        ensures
            r.0 == 1,
    {
        Self(1)
    }

    /// `k_PFFSS_ApprovedForSale` = `2`
    #[allow(non_snake_case)]
    pub fn k_PFFSS_ApprovedForSale() -> (r: Self)
        ensures
            r.0 == 2,
    {
        Self(2)
    }

    /// `k_PFFSS_RejectedForSale` = `3`
    #[allow(non_snake_case)]
    pub fn k_PFFSS_RejectedForSale() -> (r: Self)
        ensures
            r.0 == 3,
    {
        Self(3)
    }

    /// `k_PFFSS_NoLongerForSale` = `4`
    #[allow(non_snake_case)]
    pub fn k_PFFSS_NoLongerForSale() -> (r: Self)
        ensures
            r.0 == 4,
    {
        Self(4)
    }

    /// `k_PFFSS_TentativeApproval` = `5`
    #[allow(non_snake_case)]
    pub fn k_PFFSS_TentativeApproval() -> (r: Self)
        ensures
            r.0 == 5,
    {
        Self(5)
    }

    /// The underlying value, as it appears on the wire.
    pub fn value(self) -> (r: i32)
        ensures
            r == self.0,
    {
        self.0
    }
}

impl From<i32> for EPublishedFileForSaleStatus {
    fn from(value: i32) -> Self {
        Self(value)
    }
}

impl FromSpecImpl<i32> for EPublishedFileForSaleStatus {
    open spec fn obeys_from_spec() -> bool {
        true
    }

    open spec fn from_spec(v: i32) -> Self {
        EPublishedFileForSaleStatus(v)
    }
}

/// A fresh value is `0`, the value the schema lists first.
impl Default for EPublishedFileForSaleStatus {
    fn default() -> (r: Self)
        ensures
            r.0 == 0,
    {
        Self(0)
    }
}

/// Values are ordered by their wire value.
impl PartialOrd for EPublishedFileForSaleStatus {
    fn partial_cmp(&self, other: &Self) -> (r: Option<Ordering>) {
        if self.0 < other.0 {
            Some(Ordering::Less)
        } else if self.0 == other.0 {
            Some(Ordering::Equal)
        } else {
            Some(Ordering::Greater)
        }
    }
}

impl PartialOrdSpecImpl for EPublishedFileForSaleStatus {
    open spec fn obeys_partial_cmp_spec() -> bool {
        true
    }

    open spec fn partial_cmp_spec(&self, other: &Self) -> Option<Ordering> {
        if self.0 < other.0 {
            Some(Ordering::Less)
        } else if self.0 == other.0 {
            Some(Ordering::Equal)
        } else {
            Some(Ordering::Greater)
        }
    }
}

/// `EQueryFilesSpecialFilter`, as a newtype so an unrecognised value round-trips instead of
/// being rejected. Valve adds values without warning.
#[derive(Debug, Clone, Copy, PartialEq, Eq, Ord, Hash, Structural)]
pub struct EQueryFilesSpecialFilter(pub i32);

impl EQueryFilesSpecialFilter {
    /// `k_EQueryFilesSpecialFilter_None` = `0`
    #[allow(non_snake_case)]
    pub fn k_EQueryFilesSpecialFilter_None() -> (r: Self)
        ensures
            r.0 == 0,
    {
        Self(0)
    }

    /// `k_EQueryFilesSpecialFilter_AcceptedForUse` = `1`
    #[allow(non_snake_case)]
    pub fn k_EQueryFilesSpecialFilter_AcceptedForUse() -> (r: Self)
        ensures
            r.0 == 1,
    {
        Self(1)
    }

    /// `k_EQueryFilesSpecialFilter_FavoritedByFriends` = `2`
    #[allow(non_snake_case)]
    pub fn k_EQueryFilesSpecialFilter_FavoritedByFriends() -> (r: Self)
        ensures
            r.0 == 2,
    {
        Self(2)
    }

    /// `k_EQueryFilesSpecialFilter_CreateByFriends` = `3`
    #[allow(non_snake_case)]
    pub fn k_EQueryFilesSpecialFilter_CreateByFriends() -> (r: Self)
        ensures
            r.0 == 3,
    {
        Self(3)
    }

    /// `k_EQueryFilesSpecialFilter_CreatedByFollowed` = `4`
    #[allow(non_snake_case)]
    pub fn k_EQueryFilesSpecialFilter_CreatedByFollowed() -> (r: Self)
        ensures
            r.0 == 4,
    {
        Self(4)
    }

    /// `k_EQueryFilesSpecialFilter_Reported` = `5`
    #[allow(non_snake_case)]
    pub fn k_EQueryFilesSpecialFilter_Reported() -> (r: Self)
        ensures
            r.0 == 5,
    {
        Self(5)
    }

    /// `k_EQueryFilesSpecialFilter_ParentItems` = `6`
    #[allow(non_snake_case)]
    pub fn k_EQueryFilesSpecialFilter_ParentItems() -> (r: Self)
        ensures
            r.0 == 6,
    {
        Self(6)
    }

    /// `k_EQueryFilesSpecialFilter_ParentCollections` = `7`
    #[allow(non_snake_case)]
    pub fn k_EQueryFilesSpecialFilter_ParentCollections() -> (r: Self)
        ensures
            r.0 == 7,
    {
        Self(7)
    }

    /// The underlying value, as it appears on the wire.
    pub fn value(self) -> (r: i32)
        ensures
            r == self.0,
    {
        self.0
    }
}

impl From<i32> for EQueryFilesSpecialFilter {
    fn from(value: i32) -> Self {
        Self(value)
    }
}

impl FromSpecImpl<i32> for EQueryFilesSpecialFilter {
    open spec fn obeys_from_spec() -> bool {
        true
    }

    open spec fn from_spec(v: i32) -> Self {
        EQueryFilesSpecialFilter(v)
    }
}

/// A fresh value is `0`, the value the schema lists first.
impl Default for EQueryFilesSpecialFilter {
    fn default() -> (r: Self)
        ensures
            r.0 == 0,
    {
        Self(0)
    }
}

/// Values are ordered by their wire value.
impl PartialOrd for EQueryFilesSpecialFilter {
    fn partial_cmp(&self, other: &Self) -> (r: Option<Ordering>) {
        if self.0 < other.0 {
            Some(Ordering::Less)
        } else if self.0 == other.0 {
            Some(Ordering::Equal)
        } else {
            Some(Ordering::Greater)
        }
    }
}

impl PartialOrdSpecImpl for EQueryFilesSpecialFilter {
    open spec fn obeys_partial_cmp_spec() -> bool {
        true
    }

    open spec fn partial_cmp_spec(&self, other: &Self) -> Option<Ordering> {
        if self.0 < other.0 {
            Some(Ordering::Less)
        } else if self.0 == other.0 {
            Some(Ordering::Equal)
        } else {
            Some(Ordering::Greater)
        }
    }
}

/// `EQueryFilesSearchTextTarget`, as a newtype so an unrecognised value round-trips instead of
/// being rejected. Valve adds values without warning.
#[derive(Debug, Clone, Copy, PartialEq, Eq, Ord, Hash, Structural)]
pub struct EQueryFilesSearchTextTarget(pub i32);

impl EQueryFilesSearchTextTarget {
    /// `k_EQueryFilesSearchTextTarget_AllText` = `0`
    #[allow(non_snake_case)]
    pub fn k_EQueryFilesSearchTextTarget_AllText() -> (r: Self)
        ensures
            r.0 == 0,
    {
        Self(0)
    }

    /// `k_EQueryFilesSearchTextTarget_Title` = `1`
    #[allow(non_snake_case)]
    pub fn k_EQueryFilesSearchTextTarget_Title() -> (r: Self)
        ensures
            r.0 == 1,
    {
        Self(1)
    }

    /// `k_EQueryFilesSearchTextTarget_Description` = `2`
    #[allow(non_snake_case)]
    pub fn k_EQueryFilesSearchTextTarget_Description() -> (r: Self)
        ensures
            r.0 == 2,
    {
        Self(2)
    }

    /// The underlying value, as it appears on the wire.
    pub fn value(self) -> (r: i32)
        ensures
            r == self.0,
    {
        self.0
    }
}

impl From<i32> for EQueryFilesSearchTextTarget {
    fn from(value: i32) -> Self {
        Self(value)
    }
}

impl FromSpecImpl<i32> for EQueryFilesSearchTextTarget {
    open spec fn obeys_from_spec() -> bool {
        true
    }

    open spec fn from_spec(v: i32) -> Self {
        EQueryFilesSearchTextTarget(v)
    }
}

/// A fresh value is `0`, the value the schema lists first.
impl Default for EQueryFilesSearchTextTarget {
    fn default() -> (r: Self)
        ensures
            r.0 == 0,
    {
        Self(0)
    }
}

/// Values are ordered by their wire value.
impl PartialOrd for EQueryFilesSearchTextTarget {
    fn partial_cmp(&self, other: &Self) -> (r: Option<Ordering>) {
        if self.0 < other.0 {
            Some(Ordering::Less)
        } else if self.0 == other.0 {
            Some(Ordering::Equal)
        } else {
            Some(Ordering::Greater)
        }
    }
}

impl PartialOrdSpecImpl for EQueryFilesSearchTextTarget {
    open spec fn obeys_partial_cmp_spec() -> bool {
        true
    }

    open spec fn partial_cmp_spec(&self, other: &Self) -> Option<Ordering> {
        if self.0 < other.0 {
            Some(Ordering::Less)
        } else if self.0 == other.0 {
            Some(Ordering::Equal)
        } else {
            Some(Ordering::Greater)
        }
    }
}

/// `CPublishedFile_Vote_Request`, as Valve's schema declares it.
#[derive(Debug, Clone, PartialEq)]
pub struct CPublishedFile_Vote_Request {
    /// Field 1.
    pub publishedfileid: Option<u64>,
    /// Field 2.
    pub vote_up: Option<bool>,
}

/// What a `CPublishedFile_Vote_Request` holds, as mathematical values.
#[verifier::ext_equal]
pub struct SpecCPublishedFile_Vote_Request {
    pub publishedfileid: Option<u64>,
    pub vote_up: Option<bool>,
}

impl View for CPublishedFile_Vote_Request {
    type V = SpecCPublishedFile_Vote_Request;

    open spec fn view(&self) -> SpecCPublishedFile_Vote_Request {
        SpecCPublishedFile_Vote_Request {
            publishedfileid: self.publishedfileid,
            vote_up: self.vote_up,
        }
    }
}

impl Default for CPublishedFile_Vote_Request {
    fn default() -> (r: Self)
        ensures
            r@ == CPublishedFile_Vote_Request::spec_default(),
    {
        CPublishedFile_Vote_Request {
            publishedfileid: None,
            vote_up: None,
        }
    }
}

impl CPublishedFile_Vote_Request {
    pub open spec fn spec_default() -> SpecCPublishedFile_Vote_Request {
        SpecCPublishedFile_Vote_Request {
            publishedfileid: None,
            vote_up: None,
        }
    }

    /// The records a `CPublishedFile_Vote_Request` is written as, in field order.
    pub open spec fn spec_fields(v: SpecCPublishedFile_Vote_Request) -> Seq<SpecField> {
        Seq::<SpecField>::empty()
            + opt_u64(1, v.publishedfileid)
            + opt_bool(2, v.vote_up)
    }

    #[verifier::opaque]
    pub open spec fn spec_encode(v: SpecCPublishedFile_Vote_Request) -> Seq<u8> {
        fields_bytes(Self::spec_fields(v))
    }

    /// What one record does to the message: a declared number sets or extends its
    /// field, any other number is left alone.
    pub open spec fn spec_apply(v: SpecCPublishedFile_Vote_Request, f: SpecField) -> Result<SpecCPublishedFile_Vote_Request, WireError> {
        match f.number {
            1 => match dec_u64(f.value) {
                Ok(x) => Ok(SpecCPublishedFile_Vote_Request { publishedfileid: Some(x), ..v }),
                Err(e) => Err(e),
            },
            2 => match dec_bool(f.value) {
                Ok(x) => Ok(SpecCPublishedFile_Vote_Request { vote_up: Some(x), ..v }),
                Err(e) => Err(e),
            },
            _ => Ok(v),
        }
    }

    pub open spec fn apply_fn() -> spec_fn(SpecCPublishedFile_Vote_Request, SpecField) -> Result<SpecCPublishedFile_Vote_Request, WireError> {
        |v: SpecCPublishedFile_Vote_Request, f: SpecField| Self::spec_apply(v, f)
    }

    /// The message `bytes` makes of `v`: its records applied in order, or the error
    /// that stops the reading.
    pub open spec fn spec_merge(v: SpecCPublishedFile_Vote_Request, bytes: Seq<u8>) -> Result<SpecCPublishedFile_Vote_Request, WireError> {
        let (w, stop) = merge_run(v, bytes, Self::apply_fn());
        match stop {
            None => Ok(w),
            Some(e) => Err(e),
        }
    }

    #[verifier::opaque]
    pub open spec fn spec_decode(bytes: Seq<u8>) -> Result<SpecCPublishedFile_Vote_Request, WireError> {
        Self::spec_merge(Self::spec_default(), bytes)
    }

    /// This message with one record applied to it, or, when the record is refused,
    /// the message unchanged and the reason.
    fn applied(self, f: &Field) -> (r: Result<Self, (Self, WireError)>)
        ensures
            match Self::spec_apply(self@, f@) {
                Ok(v) => r matches Ok(m) && m@ == v,
                Err(e) => r matches Err((m, x)) && x == e && m@ == self@,
            },
    {
        match f.number {
            1 => match read_u64(&f.value) {
                Ok(x) => Ok(Self { publishedfileid: Some(x), ..self }),
                Err(e) => Err((self, e)),
            },
            2 => match read_bool(&f.value) {
                Ok(x) => Ok(Self { vote_up: Some(x), ..self }),
                Err(e) => Err((self, e)),
            },
            _ => Ok(self),
        }
    }

    /// Reads the records `bytes` holds into this message, in order. When a record does
    /// not parse or is refused, the reading stops there: the message keeps what the
    /// records before it gave, and the error is returned.
    pub fn merge(&mut self, bytes: &[u8]) -> (r: Result<(), WireError>)
        ensures
            final(self)@ == merge_run(old(self)@, bytes@, Self::apply_fn()).0,
            r == match merge_run(old(self)@, bytes@, Self::apply_fn()).1 {
                None => Ok::<(), WireError>(()),
                Some(e) => Err::<(), WireError>(e),
            },
    {
        let ghost total = merge_run(self@, bytes@, Self::apply_fn());
        let mut cur = Self::default();
        std::mem::swap(&mut cur, self);
        let mut pos: usize = 0;
        assert(bytes@.skip(0) =~= bytes@);
        while pos < bytes.len()
            invariant
                pos <= bytes@.len(),
                total == merge_run(old(self)@, bytes@, Self::apply_fn()),
                merge_run(cur@, bytes@.skip(pos as int), Self::apply_fn()) == total,
            decreases bytes@.len() - pos,
        {
            let ghost s = bytes@.skip(pos as int);
            proof {
                lemma_merge_run_step(cur@, s, Self::apply_fn());
                lemma_parse_field_len(s);
            }
            match read_field(bytes, pos) {
                Ok((f, end)) => {
                    assert(bytes@.skip(end as int) =~= s.skip((end - pos) as int));
                    match cur.applied(&f) {
                        Ok(m) => {
                            cur = m;
                        },
                        Err((m, e)) => {
                            *self = m;
                            return Err(e);
                        },
                    }
                    pos = end;
                },
                Err(e) => {
                    *self = cur;
                    return Err(e);
                },
            }
        }
        assert(bytes@.skip(pos as int) =~= Seq::<u8>::empty());
        proof {
            lemma_merge_run_empty(cur@, Self::apply_fn());
        }
        *self = cur;
        Ok(())
    }

    /// Decodes a message from its encoding.
    pub fn decode(bytes: &[u8]) -> (r: Result<Self, WireError>)
        ensures
            match Self::spec_decode(bytes@) {
                Ok(v) => r matches Ok(m) && m@ == v,
                Err(e) => r matches Err(x) && x == e,
            },
    {
        proof {
            reveal(CPublishedFile_Vote_Request::spec_decode);
        }
        let mut m = Self::default();
        match m.merge(bytes) {
            Ok(()) => Ok(m),
            Err(e) => Err(e),
        }
    }

    /// The encoding of this message.
    pub fn encode_to_vec(&self) -> (r: Vec<u8>)
        ensures
            r@ == Self::spec_encode(self@),
    {
        let ghost v = self@;
        let mut out: Vec<u8> = Vec::new();
        let ghost p0 = Seq::<SpecField>::empty();
        put_opt_varint(&mut out, 1, self.publishedfileid);
        let ghost p1 = p0 + opt_u64(1, v.publishedfileid);
        proof {
            lemma_fields_bytes_concat(p0, opt_u64(1, v.publishedfileid));
        }
        put_opt_bool(&mut out, 2, self.vote_up);
        let ghost p2 = p1 + opt_bool(2, v.vote_up);
        proof {
            lemma_fields_bytes_concat(p1, opt_bool(2, v.vote_up));
        }
        proof {
            reveal(CPublishedFile_Vote_Request::spec_encode);
        }
        assert(p2 == Self::spec_fields(v));
        out
    }

    /// Appends the encoding of this message to `out`.
    pub fn encode_raw(&self, out: &mut Vec<u8>)
        ensures
            final(out)@ == old(out)@ + Self::spec_encode(self@),
    {
        let mut b = self.encode_to_vec();
        out.append(&mut b);
    }

    /// The first `k` fields of `v`, the others as a fresh message has them.
    #[verifier::opaque]
    pub open spec fn spec_prefix(v: SpecCPublishedFile_Vote_Request, k: int) -> SpecCPublishedFile_Vote_Request {
        SpecCPublishedFile_Vote_Request {
            publishedfileid: if 1 <= k { v.publishedfileid } else { None },
            vote_up: if 2 <= k { v.vote_up } else { None },
        }
    }

    /// Reading field 1 back, after the fields before it.
    proof fn lemma_field_publishedfileid(v: SpecCPublishedFile_Vote_Request)
        ensures
            fold_fields(Self::spec_prefix(v, 0), opt_u64(1, v.publishedfileid), Self::apply_fn())
                == Ok::<SpecCPublishedFile_Vote_Request, WireError>(Self::spec_prefix(v, 1)),
    {
        reveal(CPublishedFile_Vote_Request::spec_prefix);
        reveal(opt_u64);
        let apply = Self::apply_fn();
        let s = Self::spec_prefix(v, 0);
        lemma_fold_opt(s, 1, match v.publishedfileid { Some(x) => Some(enc_u64(x)), None => None }, apply);
        if let Some(x) = v.publishedfileid {
            lemma_u64_roundtrip(x);
        }
        assert(SpecCPublishedFile_Vote_Request { publishedfileid: v.publishedfileid, ..s } == Self::spec_prefix(v, 1));
    }

    /// Reading field 2 back, after the fields before it.
    proof fn lemma_field_vote_up(v: SpecCPublishedFile_Vote_Request)
        ensures
            fold_fields(Self::spec_prefix(v, 1), opt_bool(2, v.vote_up), Self::apply_fn())
                == Ok::<SpecCPublishedFile_Vote_Request, WireError>(Self::spec_prefix(v, 2)),
    {
        reveal(CPublishedFile_Vote_Request::spec_prefix);
        reveal(opt_bool);
        let apply = Self::apply_fn();
        let s = Self::spec_prefix(v, 1);
        lemma_fold_opt(s, 2, match v.vote_up { Some(x) => Some(enc_bool(x)), None => None }, apply);
        assert(SpecCPublishedFile_Vote_Request { vote_up: v.vote_up, ..s } == Self::spec_prefix(v, 2));
    }

    /// Whether this message declares field number `n`.
    pub open spec fn declares(n: u32) -> bool {
        n == 1 || n == 2
    }

    /// A record with a number this message does not declare is passed over: well-formed
    /// bytes decode to the same message with such a record after them as without it.
    pub proof fn lemma_unknown_field(bytes: Seq<u8>, f: SpecField)
        requires
            parse_fields(bytes) is Ok,
            field_wf(f),
            !Self::declares(f.number),
        ensures
            Self::spec_decode(bytes + field_bytes(f)) == Self::spec_decode(bytes),
    {
        reveal(CPublishedFile_Vote_Request::spec_decode);
        lemma_parse_fields_append(bytes, f);
        let fs = parse_fields(bytes).unwrap();
        let apply = Self::apply_fn();
        lemma_fold_concat(Self::spec_default(), fs, seq![f], apply);
        assert(fs.push(f) =~= fs + seq![f]);
        if let Ok(w) = fold_fields(Self::spec_default(), fs, apply) {
            lemma_fold_single(w, f, apply);
        }
        lemma_merge_run_fold(Self::spec_default(), bytes, apply);
        lemma_merge_run_fold(Self::spec_default(), bytes + field_bytes(f), apply);
    }

    /// Decoding the encoding of a message gives the message back.
    pub proof fn lemma_decode_encode(v: SpecCPublishedFile_Vote_Request)
        requires
            Self::spec_encode(v).len() <= u64::MAX,
        ensures
            Self::spec_decode(Self::spec_encode(v)) == Ok::<SpecCPublishedFile_Vote_Request, WireError>(v),
    {
        let apply = Self::apply_fn();
        let d = Self::spec_default();
        let p0 = Seq::<SpecField>::empty();
        let l1 = opt_u64(1, v.publishedfileid);
        let p1 = p0 + l1;
        let l2 = opt_bool(2, v.vote_up);
        let p2 = p1 + l2;
        assert(parse_fields(Self::spec_encode(v)) == Ok::<Seq<SpecField>, WireError>(p2)) by {
            reveal(CPublishedFile_Vote_Request::spec_encode);
            assert(numbers_ok(p0) && fields_wf(p0)) by {
                reveal(numbers_ok);
                reveal(fields_wf);
            }
            lemma_opt_u64_numbered(1, v.publishedfileid);
            lemma_fields_wf_concat(p0, l1);
            lemma_opt_bool_numbered(2, v.vote_up);
            lemma_fields_wf_concat(p1, l2);
            assert(p2 == Self::spec_fields(v));
            lemma_fields_wf_from_len(p2);
            lemma_fields_roundtrip(p2);
        }
        assert(Self::spec_prefix(v, 0) == d) by {
            reveal(CPublishedFile_Vote_Request::spec_prefix);
        }
        lemma_fold_empty(d, apply);
        lemma_fold_concat(d, p0, l1, apply);
        Self::lemma_field_publishedfileid(v);
        lemma_fold_concat(d, p1, l2, apply);
        Self::lemma_field_vote_up(v);
        assert(Self::spec_prefix(v, 2) == v) by {
            reveal(CPublishedFile_Vote_Request::spec_prefix);
        }
        lemma_merge_run_fold(d, Self::spec_encode(v), apply);
        assert(Self::spec_decode(Self::spec_encode(v)) == Ok::<SpecCPublishedFile_Vote_Request, WireError>(v)) by {
            reveal(CPublishedFile_Vote_Request::spec_decode);
        }
    }
}

/// `CPublishedFile_Vote_Response`, as Valve's schema declares it.
#[derive(Debug, Clone, PartialEq)]
pub struct CPublishedFile_Vote_Response {}

/// What a `CPublishedFile_Vote_Response` holds, as mathematical values.
#[verifier::ext_equal]
pub struct SpecCPublishedFile_Vote_Response {}

impl View for CPublishedFile_Vote_Response {
    type V = SpecCPublishedFile_Vote_Response;

    open spec fn view(&self) -> SpecCPublishedFile_Vote_Response {
        SpecCPublishedFile_Vote_Response {}
    }
}

impl Default for CPublishedFile_Vote_Response {
    fn default() -> (r: Self)
        ensures
            r@ == CPublishedFile_Vote_Response::spec_default(),
    {
        CPublishedFile_Vote_Response {}
    }
}

impl CPublishedFile_Vote_Response {
    pub open spec fn spec_default() -> SpecCPublishedFile_Vote_Response {
        SpecCPublishedFile_Vote_Response {}
    }

    /// The records a `CPublishedFile_Vote_Response` is written as, in field order.
    pub open spec fn spec_fields(v: SpecCPublishedFile_Vote_Response) -> Seq<SpecField> {
        Seq::<SpecField>::empty()
    }

    #[verifier::opaque]
    pub open spec fn spec_encode(v: SpecCPublishedFile_Vote_Response) -> Seq<u8> {
        fields_bytes(Self::spec_fields(v))
    }

    /// What one record does to the message: a declared number sets or extends its
    /// field, any other number is left alone.
    pub open spec fn spec_apply(v: SpecCPublishedFile_Vote_Response, f: SpecField) -> Result<SpecCPublishedFile_Vote_Response, WireError> {
        match f.number {
            _ => Ok(v),
        }
    }

    pub open spec fn apply_fn() -> spec_fn(SpecCPublishedFile_Vote_Response, SpecField) -> Result<SpecCPublishedFile_Vote_Response, WireError> {
        |v: SpecCPublishedFile_Vote_Response, f: SpecField| Self::spec_apply(v, f)
    }

    /// The message `bytes` makes of `v`: its records applied in order, or the error
    /// that stops the reading.
    pub open spec fn spec_merge(v: SpecCPublishedFile_Vote_Response, bytes: Seq<u8>) -> Result<SpecCPublishedFile_Vote_Response, WireError> {
        let (w, stop) = merge_run(v, bytes, Self::apply_fn());
        match stop {
            None => Ok(w),
            Some(e) => Err(e),
        }
    }

    #[verifier::opaque]
    pub open spec fn spec_decode(bytes: Seq<u8>) -> Result<SpecCPublishedFile_Vote_Response, WireError> {
        Self::spec_merge(Self::spec_default(), bytes)
    }

    /// This message with one record applied to it, or, when the record is refused,
    /// the message unchanged and the reason.
    fn applied(self, f: &Field) -> (r: Result<Self, (Self, WireError)>)
        ensures
            match Self::spec_apply(self@, f@) {
                Ok(v) => r matches Ok(m) && m@ == v,
                Err(e) => r matches Err((m, x)) && x == e && m@ == self@,
            },
    {
        match f.number {
            _ => Ok(self),
        }
    }

    /// Reads the records `bytes` holds into this message, in order. When a record does
    /// not parse or is refused, the reading stops there: the message keeps what the
    /// records before it gave, and the error is returned.
    pub fn merge(&mut self, bytes: &[u8]) -> (r: Result<(), WireError>)
        ensures
            final(self)@ == merge_run(old(self)@, bytes@, Self::apply_fn()).0,
            r == match merge_run(old(self)@, bytes@, Self::apply_fn()).1 {
                None => Ok::<(), WireError>(()),
                Some(e) => Err::<(), WireError>(e),
            },
    {
        let ghost total = merge_run(self@, bytes@, Self::apply_fn());
        let mut cur = Self::default();
        std::mem::swap(&mut cur, self);
        let mut pos: usize = 0;
        assert(bytes@.skip(0) =~= bytes@);
        while pos < bytes.len()
            invariant
                pos <= bytes@.len(),
                total == merge_run(old(self)@, bytes@, Self::apply_fn()),
                merge_run(cur@, bytes@.skip(pos as int), Self::apply_fn()) == total,
            decreases bytes@.len() - pos,
        {
            let ghost s = bytes@.skip(pos as int);
            proof {
                lemma_merge_run_step(cur@, s, Self::apply_fn());
                lemma_parse_field_len(s);
            }
            match read_field(bytes, pos) {
                Ok((f, end)) => {
                    assert(bytes@.skip(end as int) =~= s.skip((end - pos) as int));
                    match cur.applied(&f) {
                        Ok(m) => {
                            cur = m;
                        },
                        Err((m, e)) => {
                            *self = m;
                            return Err(e);
                        },
                    }
                    pos = end;
                },
                Err(e) => {
                    *self = cur;
                    return Err(e);
                },
            }
        }
        assert(bytes@.skip(pos as int) =~= Seq::<u8>::empty());
        proof {
            lemma_merge_run_empty(cur@, Self::apply_fn());
        }
        *self = cur;
        Ok(())
    }

    /// Decodes a message from its encoding.
    pub fn decode(bytes: &[u8]) -> (r: Result<Self, WireError>)
        ensures
            match Self::spec_decode(bytes@) {
                Ok(v) => r matches Ok(m) && m@ == v,
                Err(e) => r matches Err(x) && x == e,
            },
    {
        proof {
            reveal(CPublishedFile_Vote_Response::spec_decode);
        }
        let mut m = Self::default();
        match m.merge(bytes) {
            Ok(()) => Ok(m),
            Err(e) => Err(e),
        }
    }

    /// The encoding of this message.
    pub fn encode_to_vec(&self) -> (r: Vec<u8>)
        ensures
            r@ == Self::spec_encode(self@),
    {
        let ghost v = self@;
        let mut out: Vec<u8> = Vec::new();
        let ghost p0 = Seq::<SpecField>::empty();
        proof {
            reveal(CPublishedFile_Vote_Response::spec_encode);
        }
        assert(p0 == Self::spec_fields(v));
        assert(out@ =~= fields_bytes(p0));
        out
    }

    /// Appends the encoding of this message to `out`.
    pub fn encode_raw(&self, out: &mut Vec<u8>)
        ensures
            final(out)@ == old(out)@ + Self::spec_encode(self@),
    {
        let mut b = self.encode_to_vec();
        out.append(&mut b);
    }

    /// The first `k` fields of `v`, the others as a fresh message has them.
    #[verifier::opaque]
    pub open spec fn spec_prefix(v: SpecCPublishedFile_Vote_Response, k: int) -> SpecCPublishedFile_Vote_Response {
        SpecCPublishedFile_Vote_Response {}
    }

    /// Whether this message declares field number `n`.
    pub open spec fn declares(n: u32) -> bool {
        false
    }

    /// A record with a number this message does not declare is passed over: well-formed
    /// bytes decode to the same message with such a record after them as without it.
    pub proof fn lemma_unknown_field(bytes: Seq<u8>, f: SpecField)
        requires
            parse_fields(bytes) is Ok,
            field_wf(f),
            !Self::declares(f.number),
        ensures
            Self::spec_decode(bytes + field_bytes(f)) == Self::spec_decode(bytes),
    {
        reveal(CPublishedFile_Vote_Response::spec_decode);
        lemma_parse_fields_append(bytes, f);
        let fs = parse_fields(bytes).unwrap();
        let apply = Self::apply_fn();
        lemma_fold_concat(Self::spec_default(), fs, seq![f], apply);
        assert(fs.push(f) =~= fs + seq![f]);
        if let Ok(w) = fold_fields(Self::spec_default(), fs, apply) {
            lemma_fold_single(w, f, apply);
        }
        lemma_merge_run_fold(Self::spec_default(), bytes, apply);
        lemma_merge_run_fold(Self::spec_default(), bytes + field_bytes(f), apply);
    }

    /// Decoding the encoding of a message gives the message back.
    pub proof fn lemma_decode_encode(v: SpecCPublishedFile_Vote_Response)
        requires
            Self::spec_encode(v).len() <= u64::MAX,
        ensures
            Self::spec_decode(Self::spec_encode(v)) == Ok::<SpecCPublishedFile_Vote_Response, WireError>(v),
    {
        let apply = Self::apply_fn();
        let d = Self::spec_default();
        let p0 = Seq::<SpecField>::empty();
        assert(parse_fields(Self::spec_encode(v)) == Ok::<Seq<SpecField>, WireError>(p0)) by {
            reveal(CPublishedFile_Vote_Response::spec_encode);
            assert(numbers_ok(p0) && fields_wf(p0)) by {
                reveal(numbers_ok);
                reveal(fields_wf);
            }
            assert(p0 == Self::spec_fields(v));
            lemma_fields_wf_from_len(p0);
            lemma_fields_roundtrip(p0);
        }
        assert(Self::spec_prefix(v, 0) == d) by {
            reveal(CPublishedFile_Vote_Response::spec_prefix);
        }
        lemma_fold_empty(d, apply);
        assert(Self::spec_prefix(v, 0) == v) by {
            reveal(CPublishedFile_Vote_Response::spec_prefix);
        }
        lemma_merge_run_fold(d, Self::spec_encode(v), apply);
        assert(Self::spec_decode(Self::spec_encode(v)) == Ok::<SpecCPublishedFile_Vote_Response, WireError>(v)) by {
            reveal(CPublishedFile_Vote_Response::spec_decode);
        }
    }
}

/// `CPublishedFile_Subscribe_Request`, as Valve's schema declares it.
#[derive(Debug, Clone, PartialEq)]
pub struct CPublishedFile_Subscribe_Request {
    /// Field 1.
    pub publishedfileid: Option<u64>,
    /// Field 2.
    pub list_type: Option<u32>,
    /// Field 3.
    pub appid: Option<i32>,
    /// Field 4.
    pub notify_client: Option<bool>,
    /// Field 5.
    pub include_dependencies: Option<bool>,
}

/// What a `CPublishedFile_Subscribe_Request` holds, as mathematical values.
#[verifier::ext_equal]
pub struct SpecCPublishedFile_Subscribe_Request {
    pub publishedfileid: Option<u64>,
    pub list_type: Option<u32>,
    pub appid: Option<i32>,
    pub notify_client: Option<bool>,
    pub include_dependencies: Option<bool>,
}

impl View for CPublishedFile_Subscribe_Request {
    type V = SpecCPublishedFile_Subscribe_Request;

    open spec fn view(&self) -> SpecCPublishedFile_Subscribe_Request {
        SpecCPublishedFile_Subscribe_Request {
            publishedfileid: self.publishedfileid,
            list_type: self.list_type,
            appid: self.appid,
            notify_client: self.notify_client,
            include_dependencies: self.include_dependencies,
        }
    }
}

impl Default for CPublishedFile_Subscribe_Request {
    fn default() -> (r: Self)
        ensures
            r@ == CPublishedFile_Subscribe_Request::spec_default(),
    {
        CPublishedFile_Subscribe_Request {
            publishedfileid: None,
            list_type: None,
            appid: None,
            notify_client: None,
            include_dependencies: None,
        }
    }
}

impl CPublishedFile_Subscribe_Request {
    pub open spec fn spec_default() -> SpecCPublishedFile_Subscribe_Request {
        SpecCPublishedFile_Subscribe_Request {
            publishedfileid: None,
            list_type: None,
            appid: None,
            notify_client: None,
            include_dependencies: None,
        }
    }

    /// The records a `CPublishedFile_Subscribe_Request` is written as, in field order.
    pub open spec fn spec_fields(v: SpecCPublishedFile_Subscribe_Request) -> Seq<SpecField> {
        Seq::<SpecField>::empty()
            + opt_u64(1, v.publishedfileid)
            + opt_u32(2, v.list_type)
            + opt_i32(3, v.appid)
            + opt_bool(4, v.notify_client)
            + opt_bool(5, v.include_dependencies)
    }

    #[verifier::opaque]
    pub open spec fn spec_encode(v: SpecCPublishedFile_Subscribe_Request) -> Seq<u8> {
        fields_bytes(Self::spec_fields(v))
    }

    /// What one record does to the message: a declared number sets or extends its
    /// field, any other number is left alone.
    pub open spec fn spec_apply(v: SpecCPublishedFile_Subscribe_Request, f: SpecField) -> Result<SpecCPublishedFile_Subscribe_Request, WireError> {
        match f.number {
            1 => match dec_u64(f.value) {
                Ok(x) => Ok(SpecCPublishedFile_Subscribe_Request { publishedfileid: Some(x), ..v }),
                Err(e) => Err(e),
            },
            2 => match dec_u32(f.value) {
                Ok(x) => Ok(SpecCPublishedFile_Subscribe_Request { list_type: Some(x), ..v }),
                Err(e) => Err(e),
            },
            3 => match dec_i32(f.value) {
                Ok(x) => Ok(SpecCPublishedFile_Subscribe_Request { appid: Some(x), ..v }),
                Err(e) => Err(e),
            },
            4 => match dec_bool(f.value) {
                Ok(x) => Ok(SpecCPublishedFile_Subscribe_Request { notify_client: Some(x), ..v }),
                Err(e) => Err(e),
            },
            5 => match dec_bool(f.value) {
                Ok(x) => Ok(SpecCPublishedFile_Subscribe_Request { include_dependencies: Some(x), ..v }),
                Err(e) => Err(e),
            },
            _ => Ok(v),
        }
    }

    pub open spec fn apply_fn() -> spec_fn(SpecCPublishedFile_Subscribe_Request, SpecField) -> Result<SpecCPublishedFile_Subscribe_Request, WireError> {
        |v: SpecCPublishedFile_Subscribe_Request, f: SpecField| Self::spec_apply(v, f)
    }

    /// The message `bytes` makes of `v`: its records applied in order, or the error
    /// that stops the reading.
    pub open spec fn spec_merge(v: SpecCPublishedFile_Subscribe_Request, bytes: Seq<u8>) -> Result<SpecCPublishedFile_Subscribe_Request, WireError> {
        let (w, stop) = merge_run(v, bytes, Self::apply_fn());
        match stop {
            None => Ok(w),
            Some(e) => Err(e),
        }
    }

    #[verifier::opaque]
    pub open spec fn spec_decode(bytes: Seq<u8>) -> Result<SpecCPublishedFile_Subscribe_Request, WireError> {
        Self::spec_merge(Self::spec_default(), bytes)
    }

    /// This message with one record applied to it, or, when the record is refused,
    /// the message unchanged and the reason.
    fn applied(self, f: &Field) -> (r: Result<Self, (Self, WireError)>)
        ensures
            match Self::spec_apply(self@, f@) {
                Ok(v) => r matches Ok(m) && m@ == v,
                Err(e) => r matches Err((m, x)) && x == e && m@ == self@,
            },
    {
        match f.number {
            1 => match read_u64(&f.value) {
                Ok(x) => Ok(Self { publishedfileid: Some(x), ..self }),
                Err(e) => Err((self, e)),
            },
            2 => match read_u32(&f.value) {
                Ok(x) => Ok(Self { list_type: Some(x), ..self }),
                Err(e) => Err((self, e)),
            },
            3 => match read_i32(&f.value) {
                Ok(x) => Ok(Self { appid: Some(x), ..self }),
                Err(e) => Err((self, e)),
            },
            4 => match read_bool(&f.value) {
                Ok(x) => Ok(Self { notify_client: Some(x), ..self }),
                Err(e) => Err((self, e)),
            },
            5 => match read_bool(&f.value) {
                Ok(x) => Ok(Self { include_dependencies: Some(x), ..self }),
                Err(e) => Err((self, e)),
            },
            _ => Ok(self),
        }
    }

    /// Reads the records `bytes` holds into this message, in order. When a record does
    /// not parse or is refused, the reading stops there: the message keeps what the
    /// records before it gave, and the error is returned.
    pub fn merge(&mut self, bytes: &[u8]) -> (r: Result<(), WireError>)
        ensures
            final(self)@ == merge_run(old(self)@, bytes@, Self::apply_fn()).0,
            r == match merge_run(old(self)@, bytes@, Self::apply_fn()).1 {
                None => Ok::<(), WireError>(()),
                Some(e) => Err::<(), WireError>(e),
            },
    {
        let ghost total = merge_run(self@, bytes@, Self::apply_fn());
        let mut cur = Self::default();
        std::mem::swap(&mut cur, self);
        let mut pos: usize = 0;
        assert(bytes@.skip(0) =~= bytes@);
        while pos < bytes.len()
            invariant
                pos <= bytes@.len(),
                total == merge_run(old(self)@, bytes@, Self::apply_fn()),
                merge_run(cur@, bytes@.skip(pos as int), Self::apply_fn()) == total,
            decreases bytes@.len() - pos,
        {
            let ghost s = bytes@.skip(pos as int);
            proof {
                lemma_merge_run_step(cur@, s, Self::apply_fn());
                lemma_parse_field_len(s);
            }
            match read_field(bytes, pos) {
                Ok((f, end)) => {
                    assert(bytes@.skip(end as int) =~= s.skip((end - pos) as int));
                    match cur.applied(&f) {
                        Ok(m) => {
                            cur = m;
                        },
                        Err((m, e)) => {
                            *self = m;
                            return Err(e);
                        },
                    }
                    pos = end;
                },
                Err(e) => {
                    *self = cur;
                    return Err(e);
                },
            }
        }
        assert(bytes@.skip(pos as int) =~= Seq::<u8>::empty());
        proof {
            lemma_merge_run_empty(cur@, Self::apply_fn());
        }
        *self = cur;
        Ok(())
    }

    /// Decodes a message from its encoding.
    pub fn decode(bytes: &[u8]) -> (r: Result<Self, WireError>)
        ensures
            match Self::spec_decode(bytes@) {
                Ok(v) => r matches Ok(m) && m@ == v,
                Err(e) => r matches Err(x) && x == e,
            },
    {
        proof {
            reveal(CPublishedFile_Subscribe_Request::spec_decode);
        }
        let mut m = Self::default();
        match m.merge(bytes) {
            Ok(()) => Ok(m),
            Err(e) => Err(e),
        }
    }

    /// The encoding of this message.
    pub fn encode_to_vec(&self) -> (r: Vec<u8>)
        ensures
            r@ == Self::spec_encode(self@),
    {
        let ghost v = self@;
        let mut out: Vec<u8> = Vec::new();
        let ghost p0 = Seq::<SpecField>::empty();
        put_opt_varint(&mut out, 1, self.publishedfileid);
        let ghost p1 = p0 + opt_u64(1, v.publishedfileid);
        proof {
            lemma_fields_bytes_concat(p0, opt_u64(1, v.publishedfileid));
        }
        put_opt_u32(&mut out, 2, self.list_type);
        let ghost p2 = p1 + opt_u32(2, v.list_type);
        proof {
            lemma_fields_bytes_concat(p1, opt_u32(2, v.list_type));
        }
        put_opt_i32(&mut out, 3, self.appid);
        let ghost p3 = p2 + opt_i32(3, v.appid);
        proof {
            lemma_fields_bytes_concat(p2, opt_i32(3, v.appid));
        }
        put_opt_bool(&mut out, 4, self.notify_client);
        let ghost p4 = p3 + opt_bool(4, v.notify_client);
        proof {
            lemma_fields_bytes_concat(p3, opt_bool(4, v.notify_client));
        }
        put_opt_bool(&mut out, 5, self.include_dependencies);
        let ghost p5 = p4 + opt_bool(5, v.include_dependencies);
        proof {
            lemma_fields_bytes_concat(p4, opt_bool(5, v.include_dependencies));
        }
        proof {
            reveal(CPublishedFile_Subscribe_Request::spec_encode);
        }
        assert(p5 == Self::spec_fields(v));
        out
    }

    /// Appends the encoding of this message to `out`.
    pub fn encode_raw(&self, out: &mut Vec<u8>)
        ensures
            final(out)@ == old(out)@ + Self::spec_encode(self@),
    {
        let mut b = self.encode_to_vec();
        out.append(&mut b);
    }

    /// The first `k` fields of `v`, the others as a fresh message has them.
    #[verifier::opaque]
    pub open spec fn spec_prefix(v: SpecCPublishedFile_Subscribe_Request, k: int) -> SpecCPublishedFile_Subscribe_Request {
        SpecCPublishedFile_Subscribe_Request {
            publishedfileid: if 1 <= k { v.publishedfileid } else { None },
            list_type: if 2 <= k { v.list_type } else { None },
            appid: if 3 <= k { v.appid } else { None },
            notify_client: if 4 <= k { v.notify_client } else { None },
            include_dependencies: if 5 <= k { v.include_dependencies } else { None },
        }
    }

    /// Reading field 1 back, after the fields before it.
    proof fn lemma_field_publishedfileid(v: SpecCPublishedFile_Subscribe_Request)
        ensures
            fold_fields(Self::spec_prefix(v, 0), opt_u64(1, v.publishedfileid), Self::apply_fn())
                == Ok::<SpecCPublishedFile_Subscribe_Request, WireError>(Self::spec_prefix(v, 1)),
    {
        reveal(CPublishedFile_Subscribe_Request::spec_prefix);
        reveal(opt_u64);
        let apply = Self::apply_fn();
        let s = Self::spec_prefix(v, 0);
        lemma_fold_opt(s, 1, match v.publishedfileid { Some(x) => Some(enc_u64(x)), None => None }, apply);
        if let Some(x) = v.publishedfileid {
            lemma_u64_roundtrip(x);
        }
        assert(SpecCPublishedFile_Subscribe_Request { publishedfileid: v.publishedfileid, ..s } == Self::spec_prefix(v, 1));
    }

    /// Reading field 2 back, after the fields before it.
    proof fn lemma_field_list_type(v: SpecCPublishedFile_Subscribe_Request)
        ensures
            fold_fields(Self::spec_prefix(v, 1), opt_u32(2, v.list_type), Self::apply_fn())
                == Ok::<SpecCPublishedFile_Subscribe_Request, WireError>(Self::spec_prefix(v, 2)),
    {
        reveal(CPublishedFile_Subscribe_Request::spec_prefix);
        reveal(opt_u32);
        let apply = Self::apply_fn();
        let s = Self::spec_prefix(v, 1);
        lemma_fold_opt(s, 2, match v.list_type { Some(x) => Some(enc_u32(x)), None => None }, apply);
        if let Some(x) = v.list_type {
            lemma_u32_roundtrip(x);
        }
        assert(SpecCPublishedFile_Subscribe_Request { list_type: v.list_type, ..s } == Self::spec_prefix(v, 2));
    }

    /// Reading field 3 back, after the fields before it.
    proof fn lemma_field_appid(v: SpecCPublishedFile_Subscribe_Request)
        ensures
            fold_fields(Self::spec_prefix(v, 2), opt_i32(3, v.appid), Self::apply_fn())
                == Ok::<SpecCPublishedFile_Subscribe_Request, WireError>(Self::spec_prefix(v, 3)),
    {
        reveal(CPublishedFile_Subscribe_Request::spec_prefix);
        reveal(opt_i32);
        let apply = Self::apply_fn();
        let s = Self::spec_prefix(v, 2);
        lemma_fold_opt(s, 3, match v.appid { Some(x) => Some(enc_i32(x)), None => None }, apply);
        if let Some(x) = v.appid {
            lemma_i32_roundtrip(x);
        }
        assert(SpecCPublishedFile_Subscribe_Request { appid: v.appid, ..s } == Self::spec_prefix(v, 3));
    }

    /// Reading field 4 back, after the fields before it.
    proof fn lemma_field_notify_client(v: SpecCPublishedFile_Subscribe_Request)
        ensures
            fold_fields(Self::spec_prefix(v, 3), opt_bool(4, v.notify_client), Self::apply_fn())
                == Ok::<SpecCPublishedFile_Subscribe_Request, WireError>(Self::spec_prefix(v, 4)),
    {
        reveal(CPublishedFile_Subscribe_Request::spec_prefix);
        reveal(opt_bool);
        let apply = Self::apply_fn();
        let s = Self::spec_prefix(v, 3);
        lemma_fold_opt(s, 4, match v.notify_client { Some(x) => Some(enc_bool(x)), None => None }, apply);
        assert(SpecCPublishedFile_Subscribe_Request { notify_client: v.notify_client, ..s } == Self::spec_prefix(v, 4));
    }

    /// Reading field 5 back, after the fields before it.
    proof fn lemma_field_include_dependencies(v: SpecCPublishedFile_Subscribe_Request)
        ensures
            fold_fields(Self::spec_prefix(v, 4), opt_bool(5, v.include_dependencies), Self::apply_fn())
                == Ok::<SpecCPublishedFile_Subscribe_Request, WireError>(Self::spec_prefix(v, 5)),
    {
        reveal(CPublishedFile_Subscribe_Request::spec_prefix);
        reveal(opt_bool);
        let apply = Self::apply_fn();
        let s = Self::spec_prefix(v, 4);
        lemma_fold_opt(s, 5, match v.include_dependencies { Some(x) => Some(enc_bool(x)), None => None }, apply);
        assert(SpecCPublishedFile_Subscribe_Request { include_dependencies: v.include_dependencies, ..s } == Self::spec_prefix(v, 5));
    }

    /// Whether this message declares field number `n`.
    pub open spec fn declares(n: u32) -> bool {
        n == 1 || n == 2 || n == 3 || n == 4 || n == 5
    }

    /// A record with a number this message does not declare is passed over: well-formed
    /// bytes decode to the same message with such a record after them as without it.
    pub proof fn lemma_unknown_field(bytes: Seq<u8>, f: SpecField)
        requires
            parse_fields(bytes) is Ok,
            field_wf(f),
            !Self::declares(f.number),
        ensures
            Self::spec_decode(bytes + field_bytes(f)) == Self::spec_decode(bytes),
    {
        reveal(CPublishedFile_Subscribe_Request::spec_decode);
        lemma_parse_fields_append(bytes, f);
        let fs = parse_fields(bytes).unwrap();
        let apply = Self::apply_fn();
        lemma_fold_concat(Self::spec_default(), fs, seq![f], apply);
        assert(fs.push(f) =~= fs + seq![f]);
        if let Ok(w) = fold_fields(Self::spec_default(), fs, apply) {
            lemma_fold_single(w, f, apply);
        }
        lemma_merge_run_fold(Self::spec_default(), bytes, apply);
        lemma_merge_run_fold(Self::spec_default(), bytes + field_bytes(f), apply);
    }

    /// Decoding the encoding of a message gives the message back.
    pub proof fn lemma_decode_encode(v: SpecCPublishedFile_Subscribe_Request)
        requires
            Self::spec_encode(v).len() <= u64::MAX,
        ensures
            Self::spec_decode(Self::spec_encode(v)) == Ok::<SpecCPublishedFile_Subscribe_Request, WireError>(v),
    {
        let apply = Self::apply_fn();
        let d = Self::spec_default();
        let p0 = Seq::<SpecField>::empty();
        let l1 = opt_u64(1, v.publishedfileid);
        let p1 = p0 + l1;
        let l2 = opt_u32(2, v.list_type);
        let p2 = p1 + l2;
        let l3 = opt_i32(3, v.appid);
        let p3 = p2 + l3;
        let l4 = opt_bool(4, v.notify_client);
        let p4 = p3 + l4;
        let l5 = opt_bool(5, v.include_dependencies);
        let p5 = p4 + l5;
        assert(parse_fields(Self::spec_encode(v)) == Ok::<Seq<SpecField>, WireError>(p5)) by {
            reveal(CPublishedFile_Subscribe_Request::spec_encode);
            assert(numbers_ok(p0) && fields_wf(p0)) by {
                reveal(numbers_ok);
                reveal(fields_wf);
            }
            lemma_opt_u64_numbered(1, v.publishedfileid);
            lemma_fields_wf_concat(p0, l1);
            lemma_opt_u32_numbered(2, v.list_type);
            lemma_fields_wf_concat(p1, l2);
            lemma_opt_i32_numbered(3, v.appid);
            lemma_fields_wf_concat(p2, l3);
            lemma_opt_bool_numbered(4, v.notify_client);
            lemma_fields_wf_concat(p3, l4);
            lemma_opt_bool_numbered(5, v.include_dependencies);
            lemma_fields_wf_concat(p4, l5);
            assert(p5 == Self::spec_fields(v));
            lemma_fields_wf_from_len(p5);
            lemma_fields_roundtrip(p5);
        }
        assert(Self::spec_prefix(v, 0) == d) by {
            reveal(CPublishedFile_Subscribe_Request::spec_prefix);
        }
        lemma_fold_empty(d, apply);
        lemma_fold_concat(d, p0, l1, apply);
        Self::lemma_field_publishedfileid(v);
        lemma_fold_concat(d, p1, l2, apply);
        Self::lemma_field_list_type(v);
        lemma_fold_concat(d, p2, l3, apply);
        Self::lemma_field_appid(v);
        lemma_fold_concat(d, p3, l4, apply);
        Self::lemma_field_notify_client(v);
        lemma_fold_concat(d, p4, l5, apply);
        Self::lemma_field_include_dependencies(v);
        assert(Self::spec_prefix(v, 5) == v) by {
            reveal(CPublishedFile_Subscribe_Request::spec_prefix);
        }
        lemma_merge_run_fold(d, Self::spec_encode(v), apply);
        assert(Self::spec_decode(Self::spec_encode(v)) == Ok::<SpecCPublishedFile_Subscribe_Request, WireError>(v)) by {
            reveal(CPublishedFile_Subscribe_Request::spec_decode);
        }
    }
}

/// `CPublishedFile_Subscribe_Response`, as Valve's schema declares it.
#[derive(Debug, Clone, PartialEq)]
pub struct CPublishedFile_Subscribe_Response {}

/// What a `CPublishedFile_Subscribe_Response` holds, as mathematical values.
#[verifier::ext_equal]
pub struct SpecCPublishedFile_Subscribe_Response {}

impl View for CPublishedFile_Subscribe_Response {
    type V = SpecCPublishedFile_Subscribe_Response;

    open spec fn view(&self) -> SpecCPublishedFile_Subscribe_Response {
        SpecCPublishedFile_Subscribe_Response {}
    }
}

impl Default for CPublishedFile_Subscribe_Response {
    fn default() -> (r: Self)
        ensures
            r@ == CPublishedFile_Subscribe_Response::spec_default(),
    {
        CPublishedFile_Subscribe_Response {}
    }
}

impl CPublishedFile_Subscribe_Response {
    pub open spec fn spec_default() -> SpecCPublishedFile_Subscribe_Response {
        SpecCPublishedFile_Subscribe_Response {}
    }

    /// The records a `CPublishedFile_Subscribe_Response` is written as, in field order.
    pub open spec fn spec_fields(v: SpecCPublishedFile_Subscribe_Response) -> Seq<SpecField> {
        Seq::<SpecField>::empty()
    }

    #[verifier::opaque]
    pub open spec fn spec_encode(v: SpecCPublishedFile_Subscribe_Response) -> Seq<u8> {
        fields_bytes(Self::spec_fields(v))
    }

    /// What one record does to the message: a declared number sets or extends its
    /// field, any other number is left alone.
    pub open spec fn spec_apply(v: SpecCPublishedFile_Subscribe_Response, f: SpecField) -> Result<SpecCPublishedFile_Subscribe_Response, WireError> {
        match f.number {
            _ => Ok(v),
        }
    }

    pub open spec fn apply_fn() -> spec_fn(SpecCPublishedFile_Subscribe_Response, SpecField) -> Result<SpecCPublishedFile_Subscribe_Response, WireError> {
        |v: SpecCPublishedFile_Subscribe_Response, f: SpecField| Self::spec_apply(v, f)
    }

    /// The message `bytes` makes of `v`: its records applied in order, or the error
    /// that stops the reading.
    pub open spec fn spec_merge(v: SpecCPublishedFile_Subscribe_Response, bytes: Seq<u8>) -> Result<SpecCPublishedFile_Subscribe_Response, WireError> {
        let (w, stop) = merge_run(v, bytes, Self::apply_fn());
        match stop {
            None => Ok(w),
            Some(e) => Err(e),
        }
    }

    #[verifier::opaque]
    pub open spec fn spec_decode(bytes: Seq<u8>) -> Result<SpecCPublishedFile_Subscribe_Response, WireError> {
        Self::spec_merge(Self::spec_default(), bytes)
    }

    /// This message with one record applied to it, or, when the record is refused,
    /// the message unchanged and the reason.
    fn applied(self, f: &Field) -> (r: Result<Self, (Self, WireError)>)
        ensures
            match Self::spec_apply(self@, f@) {
                Ok(v) => r matches Ok(m) && m@ == v,
                Err(e) => r matches Err((m, x)) && x == e && m@ == self@,
            },
    {
        match f.number {
            _ => Ok(self),
        }
    }

    /// Reads the records `bytes` holds into this message, in order. When a record does
    /// not parse or is refused, the reading stops there: the message keeps what the
    /// records before it gave, and the error is returned.
    pub fn merge(&mut self, bytes: &[u8]) -> (r: Result<(), WireError>)
        ensures
            final(self)@ == merge_run(old(self)@, bytes@, Self::apply_fn()).0,
            r == match merge_run(old(self)@, bytes@, Self::apply_fn()).1 {
                None => Ok::<(), WireError>(()),
                Some(e) => Err::<(), WireError>(e),
            },
    {
        let ghost total = merge_run(self@, bytes@, Self::apply_fn());
        let mut cur = Self::default();
        std::mem::swap(&mut cur, self);
        let mut pos: usize = 0;
        assert(bytes@.skip(0) =~= bytes@);
        while pos < bytes.len()
            invariant
                pos <= bytes@.len(),
                total == merge_run(old(self)@, bytes@, Self::apply_fn()),
                merge_run(cur@, bytes@.skip(pos as int), Self::apply_fn()) == total,
            decreases bytes@.len() - pos,
        {
            let ghost s = bytes@.skip(pos as int);
            proof {
                lemma_merge_run_step(cur@, s, Self::apply_fn());
                lemma_parse_field_len(s);
            }
            match read_field(bytes, pos) {
                Ok((f, end)) => {
                    assert(bytes@.skip(end as int) =~= s.skip((end - pos) as int));
                    match cur.applied(&f) {
                        Ok(m) => {
                            cur = m;
                        },
                        Err((m, e)) => {
                            *self = m;
                            return Err(e);
                        },
                    }
                    pos = end;
                },
                Err(e) => {
                    *self = cur;
                    return Err(e);
                },
            }
        }
        assert(bytes@.skip(pos as int) =~= Seq::<u8>::empty());
        proof {
            lemma_merge_run_empty(cur@, Self::apply_fn());
        }
        *self = cur;
        Ok(())
    }

    /// Decodes a message from its encoding.
    pub fn decode(bytes: &[u8]) -> (r: Result<Self, WireError>)
        ensures
            match Self::spec_decode(bytes@) {
                Ok(v) => r matches Ok(m) && m@ == v,
                Err(e) => r matches Err(x) && x == e,
            },
    {
        proof {
            reveal(CPublishedFile_Subscribe_Response::spec_decode);
        }
        let mut m = Self::default();
        match m.merge(bytes) {
            Ok(()) => Ok(m),
            Err(e) => Err(e),
        }
    }

    /// The encoding of this message.
    pub fn encode_to_vec(&self) -> (r: Vec<u8>)
        ensures
            r@ == Self::spec_encode(self@),
    {
        let ghost v = self@;
        let mut out: Vec<u8> = Vec::new();
        let ghost p0 = Seq::<SpecField>::empty();
        proof {
            reveal(CPublishedFile_Subscribe_Response::spec_encode);
        }
        assert(p0 == Self::spec_fields(v));
        assert(out@ =~= fields_bytes(p0));
        out
    }

    /// Appends the encoding of this message to `out`.
    pub fn encode_raw(&self, out: &mut Vec<u8>)
        ensures
            final(out)@ == old(out)@ + Self::spec_encode(self@),
    {
        let mut b = self.encode_to_vec();
        out.append(&mut b);
    }

    /// The first `k` fields of `v`, the others as a fresh message has them.
    #[verifier::opaque]
    pub open spec fn spec_prefix(v: SpecCPublishedFile_Subscribe_Response, k: int) -> SpecCPublishedFile_Subscribe_Response {
        SpecCPublishedFile_Subscribe_Response {}
    }

    /// Whether this message declares field number `n`.
    pub open spec fn declares(n: u32) -> bool {
        false
    }

    /// A record with a number this message does not declare is passed over: well-formed
    /// bytes decode to the same message with such a record after them as without it.
    pub proof fn lemma_unknown_field(bytes: Seq<u8>, f: SpecField)
        requires
            parse_fields(bytes) is Ok,
            field_wf(f),
            !Self::declares(f.number),
        ensures
            Self::spec_decode(bytes + field_bytes(f)) == Self::spec_decode(bytes),
    {
        reveal(CPublishedFile_Subscribe_Response::spec_decode);
        lemma_parse_fields_append(bytes, f);
        let fs = parse_fields(bytes).unwrap();
        let apply = Self::apply_fn();
        lemma_fold_concat(Self::spec_default(), fs, seq![f], apply);
        assert(fs.push(f) =~= fs + seq![f]);
        if let Ok(w) = fold_fields(Self::spec_default(), fs, apply) {
            lemma_fold_single(w, f, apply);
        }
        lemma_merge_run_fold(Self::spec_default(), bytes, apply);
        lemma_merge_run_fold(Self::spec_default(), bytes + field_bytes(f), apply);
    }

    /// Decoding the encoding of a message gives the message back.
    pub proof fn lemma_decode_encode(v: SpecCPublishedFile_Subscribe_Response)
        requires
            Self::spec_encode(v).len() <= u64::MAX,
        ensures
            Self::spec_decode(Self::spec_encode(v)) == Ok::<SpecCPublishedFile_Subscribe_Response, WireError>(v),
    {
        let apply = Self::apply_fn();
        let d = Self::spec_default();
        let p0 = Seq::<SpecField>::empty();
        assert(parse_fields(Self::spec_encode(v)) == Ok::<Seq<SpecField>, WireError>(p0)) by {
            reveal(CPublishedFile_Subscribe_Response::spec_encode);
            assert(numbers_ok(p0) && fields_wf(p0)) by {
                reveal(numbers_ok);
                reveal(fields_wf);
            }
            assert(p0 == Self::spec_fields(v));
            lemma_fields_wf_from_len(p0);
            lemma_fields_roundtrip(p0);
        }
        assert(Self::spec_prefix(v, 0) == d) by {
            reveal(CPublishedFile_Subscribe_Response::spec_prefix);
        }
        lemma_fold_empty(d, apply);
        assert(Self::spec_prefix(v, 0) == v) by {
            reveal(CPublishedFile_Subscribe_Response::spec_prefix);
        }
        lemma_merge_run_fold(d, Self::spec_encode(v), apply);
        assert(Self::spec_decode(Self::spec_encode(v)) == Ok::<SpecCPublishedFile_Subscribe_Response, WireError>(v)) by {
            reveal(CPublishedFile_Subscribe_Response::spec_decode);
        }
    }
}

/// `CPublishedFile_Unsubscribe_Request`, as Valve's schema declares it.
#[derive(Debug, Clone, PartialEq)]
pub struct CPublishedFile_Unsubscribe_Request {
    /// Field 1.
    pub publishedfileid: Option<u64>,
    /// Field 2.
    pub list_type: Option<u32>,
    /// Field 3.
    pub appid: Option<i32>,
    /// Field 4.
    pub notify_client: Option<bool>,
}

/// What a `CPublishedFile_Unsubscribe_Request` holds, as mathematical values.
#[verifier::ext_equal]
pub struct SpecCPublishedFile_Unsubscribe_Request {
    pub publishedfileid: Option<u64>,
    pub list_type: Option<u32>,
    pub appid: Option<i32>,
    pub notify_client: Option<bool>,
}

impl View for CPublishedFile_Unsubscribe_Request {
    type V = SpecCPublishedFile_Unsubscribe_Request;

    open spec fn view(&self) -> SpecCPublishedFile_Unsubscribe_Request {
        SpecCPublishedFile_Unsubscribe_Request {
            publishedfileid: self.publishedfileid,
            list_type: self.list_type,
            appid: self.appid,
            notify_client: self.notify_client,
        }
    }
}

impl Default for CPublishedFile_Unsubscribe_Request {
    fn default() -> (r: Self)
        ensures
            r@ == CPublishedFile_Unsubscribe_Request::spec_default(),
    {
        CPublishedFile_Unsubscribe_Request {
            publishedfileid: None,
            list_type: None,
            appid: None,
            notify_client: None,
        }
    }
}

impl CPublishedFile_Unsubscribe_Request {
    pub open spec fn spec_default() -> SpecCPublishedFile_Unsubscribe_Request {
        SpecCPublishedFile_Unsubscribe_Request {
            publishedfileid: None,
            list_type: None,
            appid: None,
            notify_client: None,
        }
    }

    /// The records a `CPublishedFile_Unsubscribe_Request` is written as, in field order.
    pub open spec fn spec_fields(v: SpecCPublishedFile_Unsubscribe_Request) -> Seq<SpecField> {
        Seq::<SpecField>::empty()
            + opt_u64(1, v.publishedfileid)
            + opt_u32(2, v.list_type)
            + opt_i32(3, v.appid)
            + opt_bool(4, v.notify_client)
    }

    #[verifier::opaque]
    pub open spec fn spec_encode(v: SpecCPublishedFile_Unsubscribe_Request) -> Seq<u8> {
        fields_bytes(Self::spec_fields(v))
    }

    /// What one record does to the message: a declared number sets or extends its
    /// field, any other number is left alone.
    pub open spec fn spec_apply(v: SpecCPublishedFile_Unsubscribe_Request, f: SpecField) -> Result<SpecCPublishedFile_Unsubscribe_Request, WireError> {
        match f.number {
            1 => match dec_u64(f.value) {
                Ok(x) => Ok(SpecCPublishedFile_Unsubscribe_Request { publishedfileid: Some(x), ..v }),
                Err(e) => Err(e),
            },
            2 => match dec_u32(f.value) {
                Ok(x) => Ok(SpecCPublishedFile_Unsubscribe_Request { list_type: Some(x), ..v }),
                Err(e) => Err(e),
            },
            3 => match dec_i32(f.value) {
                Ok(x) => Ok(SpecCPublishedFile_Unsubscribe_Request { appid: Some(x), ..v }),
                Err(e) => Err(e),
            },
            4 => match dec_bool(f.value) {
                Ok(x) => Ok(SpecCPublishedFile_Unsubscribe_Request { notify_client: Some(x), ..v }),
                Err(e) => Err(e),
            },
            _ => Ok(v),
        }
    }

    pub open spec fn apply_fn() -> spec_fn(SpecCPublishedFile_Unsubscribe_Request, SpecField) -> Result<SpecCPublishedFile_Unsubscribe_Request, WireError> {
        |v: SpecCPublishedFile_Unsubscribe_Request, f: SpecField| Self::spec_apply(v, f)
    }

    /// The message `bytes` makes of `v`: its records applied in order, or the error
    /// that stops the reading.
    pub open spec fn spec_merge(v: SpecCPublishedFile_Unsubscribe_Request, bytes: Seq<u8>) -> Result<SpecCPublishedFile_Unsubscribe_Request, WireError> {
        let (w, stop) = merge_run(v, bytes, Self::apply_fn());
        match stop {
            None => Ok(w),
            Some(e) => Err(e),
        }
    }

    #[verifier::opaque]
    pub open spec fn spec_decode(bytes: Seq<u8>) -> Result<SpecCPublishedFile_Unsubscribe_Request, WireError> {
        Self::spec_merge(Self::spec_default(), bytes)
    }

    /// This message with one record applied to it, or, when the record is refused,
    /// the message unchanged and the reason.
    fn applied(self, f: &Field) -> (r: Result<Self, (Self, WireError)>)
        ensures
            match Self::spec_apply(self@, f@) {
                Ok(v) => r matches Ok(m) && m@ == v,
                Err(e) => r matches Err((m, x)) && x == e && m@ == self@,
            },
    {
        match f.number {
            1 => match read_u64(&f.value) {
                Ok(x) => Ok(Self { publishedfileid: Some(x), ..self }),
                Err(e) => Err((self, e)),
            },
            2 => match read_u32(&f.value) {
                Ok(x) => Ok(Self { list_type: Some(x), ..self }),
                Err(e) => Err((self, e)),
            },
            3 => match read_i32(&f.value) {
                Ok(x) => Ok(Self { appid: Some(x), ..self }),
                Err(e) => Err((self, e)),
            },
            4 => match read_bool(&f.value) {
                Ok(x) => Ok(Self { notify_client: Some(x), ..self }),
                Err(e) => Err((self, e)),
            },
            _ => Ok(self),
        }
    }

    /// Reads the records `bytes` holds into this message, in order. When a record does
    /// not parse or is refused, the reading stops there: the message keeps what the
    /// records before it gave, and the error is returned.
    pub fn merge(&mut self, bytes: &[u8]) -> (r: Result<(), WireError>)
        ensures
            final(self)@ == merge_run(old(self)@, bytes@, Self::apply_fn()).0,
            r == match merge_run(old(self)@, bytes@, Self::apply_fn()).1 {
                None => Ok::<(), WireError>(()),
                Some(e) => Err::<(), WireError>(e),
            },
    {
        let ghost total = merge_run(self@, bytes@, Self::apply_fn());
        let mut cur = Self::default();
        std::mem::swap(&mut cur, self);
        let mut pos: usize = 0;
        assert(bytes@.skip(0) =~= bytes@);
        while pos < bytes.len()
            invariant
                pos <= bytes@.len(),
                total == merge_run(old(self)@, bytes@, Self::apply_fn()),
                merge_run(cur@, bytes@.skip(pos as int), Self::apply_fn()) == total,
            decreases bytes@.len() - pos,
        {
            let ghost s = bytes@.skip(pos as int);
            proof {
                lemma_merge_run_step(cur@, s, Self::apply_fn());
                lemma_parse_field_len(s);
            }
            match read_field(bytes, pos) {
                Ok((f, end)) => {
                    assert(bytes@.skip(end as int) =~= s.skip((end - pos) as int));
                    match cur.applied(&f) {
                        Ok(m) => {
                            cur = m;
                        },
                        Err((m, e)) => {
                            *self = m;
                            return Err(e);
                        },
                    }
                    pos = end;
                },
                Err(e) => {
                    *self = cur;
                    return Err(e);
                },
            }
        }
        assert(bytes@.skip(pos as int) =~= Seq::<u8>::empty());
        proof {
            lemma_merge_run_empty(cur@, Self::apply_fn());
        }
        *self = cur;
        Ok(())
    }

    /// Decodes a message from its encoding.
    pub fn decode(bytes: &[u8]) -> (r: Result<Self, WireError>)
        ensures
            match Self::spec_decode(bytes@) {
                Ok(v) => r matches Ok(m) && m@ == v,
                Err(e) => r matches Err(x) && x == e,
            },
    {
        proof {
            reveal(CPublishedFile_Unsubscribe_Request::spec_decode);
        }
        let mut m = Self::default();
        match m.merge(bytes) {
            Ok(()) => Ok(m),
            Err(e) => Err(e),
        }
    }

    /// The encoding of this message.
    pub fn encode_to_vec(&self) -> (r: Vec<u8>)
        ensures
            r@ == Self::spec_encode(self@),
    {
        let ghost v = self@;
        let mut out: Vec<u8> = Vec::new();
        let ghost p0 = Seq::<SpecField>::empty();
        put_opt_varint(&mut out, 1, self.publishedfileid);
        let ghost p1 = p0 + opt_u64(1, v.publishedfileid);
        proof {
            lemma_fields_bytes_concat(p0, opt_u64(1, v.publishedfileid));
        }
        put_opt_u32(&mut out, 2, self.list_type);
        let ghost p2 = p1 + opt_u32(2, v.list_type);
        proof {
            lemma_fields_bytes_concat(p1, opt_u32(2, v.list_type));
        }
        put_opt_i32(&mut out, 3, self.appid);
        let ghost p3 = p2 + opt_i32(3, v.appid);
        proof {
            lemma_fields_bytes_concat(p2, opt_i32(3, v.appid));
        }
        put_opt_bool(&mut out, 4, self.notify_client);
        let ghost p4 = p3 + opt_bool(4, v.notify_client);
        proof {
            lemma_fields_bytes_concat(p3, opt_bool(4, v.notify_client));
        }
        proof {
            reveal(CPublishedFile_Unsubscribe_Request::spec_encode);
        }
        assert(p4 == Self::spec_fields(v));
        out
    }

    /// Appends the encoding of this message to `out`.
    pub fn encode_raw(&self, out: &mut Vec<u8>)
        ensures
            final(out)@ == old(out)@ + Self::spec_encode(self@),
    {
        let mut b = self.encode_to_vec();
        out.append(&mut b);
    }

    /// The first `k` fields of `v`, the others as a fresh message has them.
    #[verifier::opaque]
    pub open spec fn spec_prefix(v: SpecCPublishedFile_Unsubscribe_Request, k: int) -> SpecCPublishedFile_Unsubscribe_Request {
        SpecCPublishedFile_Unsubscribe_Request {
            publishedfileid: if 1 <= k { v.publishedfileid } else { None },
            list_type: if 2 <= k { v.list_type } else { None },
            appid: if 3 <= k { v.appid } else { None },
            notify_client: if 4 <= k { v.notify_client } else { None },
        }
    }

    /// Reading field 1 back, after the fields before it.
    proof fn lemma_field_publishedfileid(v: SpecCPublishedFile_Unsubscribe_Request)
        ensures
            fold_fields(Self::spec_prefix(v, 0), opt_u64(1, v.publishedfileid), Self::apply_fn())
                == Ok::<SpecCPublishedFile_Unsubscribe_Request, WireError>(Self::spec_prefix(v, 1)),
    {
        reveal(CPublishedFile_Unsubscribe_Request::spec_prefix);
        reveal(opt_u64);
        let apply = Self::apply_fn();
        let s = Self::spec_prefix(v, 0);
        lemma_fold_opt(s, 1, match v.publishedfileid { Some(x) => Some(enc_u64(x)), None => None }, apply);
        if let Some(x) = v.publishedfileid {
            lemma_u64_roundtrip(x);
        }
        assert(SpecCPublishedFile_Unsubscribe_Request { publishedfileid: v.publishedfileid, ..s } == Self::spec_prefix(v, 1));
    }

    /// Reading field 2 back, after the fields before it.
    proof fn lemma_field_list_type(v: SpecCPublishedFile_Unsubscribe_Request)
        ensures
            fold_fields(Self::spec_prefix(v, 1), opt_u32(2, v.list_type), Self::apply_fn())
                == Ok::<SpecCPublishedFile_Unsubscribe_Request, WireError>(Self::spec_prefix(v, 2)),
    {
        reveal(CPublishedFile_Unsubscribe_Request::spec_prefix);
        reveal(opt_u32);
        let apply = Self::apply_fn();
        let s = Self::spec_prefix(v, 1);
        lemma_fold_opt(s, 2, match v.list_type { Some(x) => Some(enc_u32(x)), None => None }, apply);
        if let Some(x) = v.list_type {
            lemma_u32_roundtrip(x);
        }
        assert(SpecCPublishedFile_Unsubscribe_Request { list_type: v.list_type, ..s } == Self::spec_prefix(v, 2));
    }

    /// Reading field 3 back, after the fields before it.
    proof fn lemma_field_appid(v: SpecCPublishedFile_Unsubscribe_Request)
        ensures
            fold_fields(Self::spec_prefix(v, 2), opt_i32(3, v.appid), Self::apply_fn())
                == Ok::<SpecCPublishedFile_Unsubscribe_Request, WireError>(Self::spec_prefix(v, 3)),
    {
        reveal(CPublishedFile_Unsubscribe_Request::spec_prefix);
        reveal(opt_i32);
        let apply = Self::apply_fn();
        let s = Self::spec_prefix(v, 2);
        lemma_fold_opt(s, 3, match v.appid { Some(x) => Some(enc_i32(x)), None => None }, apply);
        if let Some(x) = v.appid {
            lemma_i32_roundtrip(x);
        }
        assert(SpecCPublishedFile_Unsubscribe_Request { appid: v.appid, ..s } == Self::spec_prefix(v, 3));
    }

    /// Reading field 4 back, after the fields before it.
    proof fn lemma_field_notify_client(v: SpecCPublishedFile_Unsubscribe_Request)
        ensures
            fold_fields(Self::spec_prefix(v, 3), opt_bool(4, v.notify_client), Self::apply_fn())
                == Ok::<SpecCPublishedFile_Unsubscribe_Request, WireError>(Self::spec_prefix(v, 4)),
    {
        reveal(CPublishedFile_Unsubscribe_Request::spec_prefix);
        reveal(opt_bool);
        let apply = Self::apply_fn();
        let s = Self::spec_prefix(v, 3);
        lemma_fold_opt(s, 4, match v.notify_client { Some(x) => Some(enc_bool(x)), None => None }, apply);
        assert(SpecCPublishedFile_Unsubscribe_Request { notify_client: v.notify_client, ..s } == Self::spec_prefix(v, 4));
    }

    /// Whether this message declares field number `n`.
    pub open spec fn declares(n: u32) -> bool {
        n == 1 || n == 2 || n == 3 || n == 4
    }

    /// A record with a number this message does not declare is passed over: well-formed
    /// bytes decode to the same message with such a record after them as without it.
    pub proof fn lemma_unknown_field(bytes: Seq<u8>, f: SpecField)
        requires
            parse_fields(bytes) is Ok,
            field_wf(f),
            !Self::declares(f.number),
        ensures
            Self::spec_decode(bytes + field_bytes(f)) == Self::spec_decode(bytes),
    {
        reveal(CPublishedFile_Unsubscribe_Request::spec_decode);
        lemma_parse_fields_append(bytes, f);
        let fs = parse_fields(bytes).unwrap();
        let apply = Self::apply_fn();
        lemma_fold_concat(Self::spec_default(), fs, seq![f], apply);
        assert(fs.push(f) =~= fs + seq![f]);
        if let Ok(w) = fold_fields(Self::spec_default(), fs, apply) {
            lemma_fold_single(w, f, apply);
        }
        lemma_merge_run_fold(Self::spec_default(), bytes, apply);
        lemma_merge_run_fold(Self::spec_default(), bytes + field_bytes(f), apply);
    }

    /// Decoding the encoding of a message gives the message back.
    pub proof fn lemma_decode_encode(v: SpecCPublishedFile_Unsubscribe_Request)
        requires
            Self::spec_encode(v).len() <= u64::MAX,
        ensures
            Self::spec_decode(Self::spec_encode(v)) == Ok::<SpecCPublishedFile_Unsubscribe_Request, WireError>(v),
    {
        let apply = Self::apply_fn();
        let d = Self::spec_default();
        let p0 = Seq::<SpecField>::empty();
        let l1 = opt_u64(1, v.publishedfileid);
        let p1 = p0 + l1;
        let l2 = opt_u32(2, v.list_type);
        let p2 = p1 + l2;
        let l3 = opt_i32(3, v.appid);
        let p3 = p2 + l3;
        let l4 = opt_bool(4, v.notify_client);
        let p4 = p3 + l4;
        assert(parse_fields(Self::spec_encode(v)) == Ok::<Seq<SpecField>, WireError>(p4)) by {
            reveal(CPublishedFile_Unsubscribe_Request::spec_encode);
            assert(numbers_ok(p0) && fields_wf(p0)) by {
                reveal(numbers_ok);
                reveal(fields_wf);
            }
            lemma_opt_u64_numbered(1, v.publishedfileid);
            lemma_fields_wf_concat(p0, l1);
            lemma_opt_u32_numbered(2, v.list_type);
            lemma_fields_wf_concat(p1, l2);
            lemma_opt_i32_numbered(3, v.appid);
            lemma_fields_wf_concat(p2, l3);
            lemma_opt_bool_numbered(4, v.notify_client);
            lemma_fields_wf_concat(p3, l4);
            assert(p4 == Self::spec_fields(v));
            lemma_fields_wf_from_len(p4);
            lemma_fields_roundtrip(p4);
        }
        assert(Self::spec_prefix(v, 0) == d) by {
            reveal(CPublishedFile_Unsubscribe_Request::spec_prefix);
        }
        lemma_fold_empty(d, apply);
        lemma_fold_concat(d, p0, l1, apply);
        Self::lemma_field_publishedfileid(v);
        lemma_fold_concat(d, p1, l2, apply);
        Self::lemma_field_list_type(v);
        lemma_fold_concat(d, p2, l3, apply);
        Self::lemma_field_appid(v);
        lemma_fold_concat(d, p3, l4, apply);
        Self::lemma_field_notify_client(v);
        assert(Self::spec_prefix(v, 4) == v) by {
            reveal(CPublishedFile_Unsubscribe_Request::spec_prefix);
        }
        lemma_merge_run_fold(d, Self::spec_encode(v), apply);
        assert(Self::spec_decode(Self::spec_encode(v)) == Ok::<SpecCPublishedFile_Unsubscribe_Request, WireError>(v)) by {
            reveal(CPublishedFile_Unsubscribe_Request::spec_decode);
        }
    }
}

/// `CPublishedFile_Unsubscribe_Response`, as Valve's schema declares it.
#[derive(Debug, Clone, PartialEq)]
pub struct CPublishedFile_Unsubscribe_Response {}

/// What a `CPublishedFile_Unsubscribe_Response` holds, as mathematical values.
#[verifier::ext_equal]
pub struct SpecCPublishedFile_Unsubscribe_Response {}

impl View for CPublishedFile_Unsubscribe_Response {
    type V = SpecCPublishedFile_Unsubscribe_Response;

    open spec fn view(&self) -> SpecCPublishedFile_Unsubscribe_Response {
        SpecCPublishedFile_Unsubscribe_Response {}
    }
}

impl Default for CPublishedFile_Unsubscribe_Response {
    fn default() -> (r: Self)
        ensures
            r@ == CPublishedFile_Unsubscribe_Response::spec_default(),
    {
        CPublishedFile_Unsubscribe_Response {}
    }
}

impl CPublishedFile_Unsubscribe_Response {
    pub open spec fn spec_default() -> SpecCPublishedFile_Unsubscribe_Response {
        SpecCPublishedFile_Unsubscribe_Response {}
    }

    /// The records a `CPublishedFile_Unsubscribe_Response` is written as, in field order.
    pub open spec fn spec_fields(v: SpecCPublishedFile_Unsubscribe_Response) -> Seq<SpecField> {
        Seq::<SpecField>::empty()
    }

    #[verifier::opaque]
    pub open spec fn spec_encode(v: SpecCPublishedFile_Unsubscribe_Response) -> Seq<u8> {
        fields_bytes(Self::spec_fields(v))
    }

    /// What one record does to the message: a declared number sets or extends its
    /// field, any other number is left alone.
    pub open spec fn spec_apply(v: SpecCPublishedFile_Unsubscribe_Response, f: SpecField) -> Result<SpecCPublishedFile_Unsubscribe_Response, WireError> {
        match f.number {
            _ => Ok(v),
        }
    }

    pub open spec fn apply_fn() -> spec_fn(SpecCPublishedFile_Unsubscribe_Response, SpecField) -> Result<SpecCPublishedFile_Unsubscribe_Response, WireError> {
        |v: SpecCPublishedFile_Unsubscribe_Response, f: SpecField| Self::spec_apply(v, f)
    }

    /// The message `bytes` makes of `v`: its records applied in order, or the error
    /// that stops the reading.
    pub open spec fn spec_merge(v: SpecCPublishedFile_Unsubscribe_Response, bytes: Seq<u8>) -> Result<SpecCPublishedFile_Unsubscribe_Response, WireError> {
        let (w, stop) = merge_run(v, bytes, Self::apply_fn());
        match stop {
            None => Ok(w),
            Some(e) => Err(e),
        }
    }

    #[verifier::opaque]
    pub open spec fn spec_decode(bytes: Seq<u8>) -> Result<SpecCPublishedFile_Unsubscribe_Response, WireError> {
        Self::spec_merge(Self::spec_default(), bytes)
    }

    /// This message with one record applied to it, or, when the record is refused,
    /// the message unchanged and the reason.
    fn applied(self, f: &Field) -> (r: Result<Self, (Self, WireError)>)
        ensures
            match Self::spec_apply(self@, f@) {
                Ok(v) => r matches Ok(m) && m@ == v,
                Err(e) => r matches Err((m, x)) && x == e && m@ == self@,
            },
    {
        match f.number {
            _ => Ok(self),
        }
    }

    /// Reads the records `bytes` holds into this message, in order. When a record does
    /// not parse or is refused, the reading stops there: the message keeps what the
    /// records before it gave, and the error is returned.
    pub fn merge(&mut self, bytes: &[u8]) -> (r: Result<(), WireError>)
        ensures
            final(self)@ == merge_run(old(self)@, bytes@, Self::apply_fn()).0,
            r == match merge_run(old(self)@, bytes@, Self::apply_fn()).1 {
                None => Ok::<(), WireError>(()),
                Some(e) => Err::<(), WireError>(e),
            },
    {
        let ghost total = merge_run(self@, bytes@, Self::apply_fn());
        let mut cur = Self::default();
        std::mem::swap(&mut cur, self);
        let mut pos: usize = 0;
        assert(bytes@.skip(0) =~= bytes@);
        while pos < bytes.len()
            invariant
                pos <= bytes@.len(),
                total == merge_run(old(self)@, bytes@, Self::apply_fn()),
                merge_run(cur@, bytes@.skip(pos as int), Self::apply_fn()) == total,
            decreases bytes@.len() - pos,
        {
            let ghost s = bytes@.skip(pos as int);
            proof {
                lemma_merge_run_step(cur@, s, Self::apply_fn());
                lemma_parse_field_len(s);
            }
            match read_field(bytes, pos) {
                Ok((f, end)) => {
                    assert(bytes@.skip(end as int) =~= s.skip((end - pos) as int));
                    match cur.applied(&f) {
                        Ok(m) => {
                            cur = m;
                        },
                        Err((m, e)) => {
                            *self = m;
                            return Err(e);
                        },
                    }
                    pos = end;
                },
                Err(e) => {
                    *self = cur;
                    return Err(e);
                },
            }
        }
        assert(bytes@.skip(pos as int) =~= Seq::<u8>::empty());
        proof {
            lemma_merge_run_empty(cur@, Self::apply_fn());
        }
        *self = cur;
        Ok(())
    }

    /// Decodes a message from its encoding.
    pub fn decode(bytes: &[u8]) -> (r: Result<Self, WireError>)
        ensures
            match Self::spec_decode(bytes@) {
                Ok(v) => r matches Ok(m) && m@ == v,
                Err(e) => r matches Err(x) && x == e,
            },
    {
        proof {
            reveal(CPublishedFile_Unsubscribe_Response::spec_decode);
        }
        let mut m = Self::default();
        match m.merge(bytes) {
            Ok(()) => Ok(m),
            Err(e) => Err(e),
        }
    }

    /// The encoding of this message.
    pub fn encode_to_vec(&self) -> (r: Vec<u8>)
        ensures
            r@ == Self::spec_encode(self@),
    {
        let ghost v = self@;
        let mut out: Vec<u8> = Vec::new();
        let ghost p0 = Seq::<SpecField>::empty();
        proof {
            reveal(CPublishedFile_Unsubscribe_Response::spec_encode);
        }
        assert(p0 == Self::spec_fields(v));
        assert(out@ =~= fields_bytes(p0));
        out
    }

    /// Appends the encoding of this message to `out`.
    pub fn encode_raw(&self, out: &mut Vec<u8>)
        ensures
            final(out)@ == old(out)@ + Self::spec_encode(self@),
    {
        let mut b = self.encode_to_vec();
        out.append(&mut b);
    }

    /// The first `k` fields of `v`, the others as a fresh message has them.
    #[verifier::opaque]
    pub open spec fn spec_prefix(v: SpecCPublishedFile_Unsubscribe_Response, k: int) -> SpecCPublishedFile_Unsubscribe_Response {
        SpecCPublishedFile_Unsubscribe_Response {}
    }

    /// Whether this message declares field number `n`.
    pub open spec fn declares(n: u32) -> bool {
        false
    }

    /// A record with a number this message does not declare is passed over: well-formed
    /// bytes decode to the same message with such a record after them as without it.
    pub proof fn lemma_unknown_field(bytes: Seq<u8>, f: SpecField)
        requires
            parse_fields(bytes) is Ok,
            field_wf(f),
            !Self::declares(f.number),
        ensures
            Self::spec_decode(bytes + field_bytes(f)) == Self::spec_decode(bytes),
    {
        reveal(CPublishedFile_Unsubscribe_Response::spec_decode);
        lemma_parse_fields_append(bytes, f);
        let fs = parse_fields(bytes).unwrap();
        let apply = Self::apply_fn();
        lemma_fold_concat(Self::spec_default(), fs, seq![f], apply);
        assert(fs.push(f) =~= fs + seq![f]);
        if let Ok(w) = fold_fields(Self::spec_default(), fs, apply) {
            lemma_fold_single(w, f, apply);
        }
        lemma_merge_run_fold(Self::spec_default(), bytes, apply);
        lemma_merge_run_fold(Self::spec_default(), bytes + field_bytes(f), apply);
    }

    /// Decoding the encoding of a message gives the message back.
    pub proof fn lemma_decode_encode(v: SpecCPublishedFile_Unsubscribe_Response)
        requires
            Self::spec_encode(v).len() <= u64::MAX,
        ensures
            Self::spec_decode(Self::spec_encode(v)) == Ok::<SpecCPublishedFile_Unsubscribe_Response, WireError>(v),
    {
        let apply = Self::apply_fn();
        let d = Self::spec_default();
        let p0 = Seq::<SpecField>::empty();
        assert(parse_fields(Self::spec_encode(v)) == Ok::<Seq<SpecField>, WireError>(p0)) by {
            reveal(CPublishedFile_Unsubscribe_Response::spec_encode);
            assert(numbers_ok(p0) && fields_wf(p0)) by {
                reveal(numbers_ok);
                reveal(fields_wf);
            }
            assert(p0 == Self::spec_fields(v));
            lemma_fields_wf_from_len(p0);
            lemma_fields_roundtrip(p0);
        }
        assert(Self::spec_prefix(v, 0) == d) by {
            reveal(CPublishedFile_Unsubscribe_Response::spec_prefix);
        }
        lemma_fold_empty(d, apply);
        assert(Self::spec_prefix(v, 0) == v) by {
            reveal(CPublishedFile_Unsubscribe_Response::spec_prefix);
        }
        lemma_merge_run_fold(d, Self::spec_encode(v), apply);
        assert(Self::spec_decode(Self::spec_encode(v)) == Ok::<SpecCPublishedFile_Unsubscribe_Response, WireError>(v)) by {
            reveal(CPublishedFile_Unsubscribe_Response::spec_decode);
        }
    }
}

/// `CPublishedFile_CanSubscribe_Request`, as Valve's schema declares it.
#[derive(Debug, Clone, PartialEq)]
pub struct CPublishedFile_CanSubscribe_Request {
    /// Field 1.
    pub publishedfileid: Option<u64>,
}

/// What a `CPublishedFile_CanSubscribe_Request` holds, as mathematical values.
#[verifier::ext_equal]
pub struct SpecCPublishedFile_CanSubscribe_Request {
    pub publishedfileid: Option<u64>,
}

impl View for CPublishedFile_CanSubscribe_Request {
    type V = SpecCPublishedFile_CanSubscribe_Request;

    open spec fn view(&self) -> SpecCPublishedFile_CanSubscribe_Request {
        SpecCPublishedFile_CanSubscribe_Request {
            publishedfileid: self.publishedfileid,
        }
    }
}

impl Default for CPublishedFile_CanSubscribe_Request {
    fn default() -> (r: Self)
        ensures
            r@ == CPublishedFile_CanSubscribe_Request::spec_default(),
    {
        CPublishedFile_CanSubscribe_Request {
            publishedfileid: None,
        }
    }
}

impl CPublishedFile_CanSubscribe_Request {
    pub open spec fn spec_default() -> SpecCPublishedFile_CanSubscribe_Request {
        SpecCPublishedFile_CanSubscribe_Request {
            publishedfileid: None,
        }
    }

    /// The records a `CPublishedFile_CanSubscribe_Request` is written as, in field order.
    pub open spec fn spec_fields(v: SpecCPublishedFile_CanSubscribe_Request) -> Seq<SpecField> {
        Seq::<SpecField>::empty()
            + opt_u64(1, v.publishedfileid)
    }

    #[verifier::opaque]
    pub open spec fn spec_encode(v: SpecCPublishedFile_CanSubscribe_Request) -> Seq<u8> {
        fields_bytes(Self::spec_fields(v))
    }

    /// What one record does to the message: a declared number sets or extends its
    /// field, any other number is left alone.
    pub open spec fn spec_apply(v: SpecCPublishedFile_CanSubscribe_Request, f: SpecField) -> Result<SpecCPublishedFile_CanSubscribe_Request, WireError> {
        match f.number {
            1 => match dec_u64(f.value) {
                Ok(x) => Ok(SpecCPublishedFile_CanSubscribe_Request { publishedfileid: Some(x), ..v }),
                Err(e) => Err(e),
            },
            _ => Ok(v),
        }
    }

    pub open spec fn apply_fn() -> spec_fn(SpecCPublishedFile_CanSubscribe_Request, SpecField) -> Result<SpecCPublishedFile_CanSubscribe_Request, WireError> {
        |v: SpecCPublishedFile_CanSubscribe_Request, f: SpecField| Self::spec_apply(v, f)
    }

    /// The message `bytes` makes of `v`: its records applied in order, or the error
    /// that stops the reading.
    pub open spec fn spec_merge(v: SpecCPublishedFile_CanSubscribe_Request, bytes: Seq<u8>) -> Result<SpecCPublishedFile_CanSubscribe_Request, WireError> {
        let (w, stop) = merge_run(v, bytes, Self::apply_fn());
        match stop {
            None => Ok(w),
            Some(e) => Err(e),
        }
    }

    #[verifier::opaque]
    pub open spec fn spec_decode(bytes: Seq<u8>) -> Result<SpecCPublishedFile_CanSubscribe_Request, WireError> {
        Self::spec_merge(Self::spec_default(), bytes)
    }

    /// This message with one record applied to it, or, when the record is refused,
    /// the message unchanged and the reason.
    fn applied(self, f: &Field) -> (r: Result<Self, (Self, WireError)>)
        ensures
            match Self::spec_apply(self@, f@) {
                Ok(v) => r matches Ok(m) && m@ == v,
                Err(e) => r matches Err((m, x)) && x == e && m@ == self@,
            },
    {
        match f.number {
            1 => match read_u64(&f.value) {
                Ok(x) => Ok(Self { publishedfileid: Some(x), ..self }),
                Err(e) => Err((self, e)),
            },
            _ => Ok(self),
        }
    }

    /// Reads the records `bytes` holds into this message, in order. When a record does
    /// not parse or is refused, the reading stops there: the message keeps what the
    /// records before it gave, and the error is returned.
    pub fn merge(&mut self, bytes: &[u8]) -> (r: Result<(), WireError>)
        ensures
            final(self)@ == merge_run(old(self)@, bytes@, Self::apply_fn()).0,
            r == match merge_run(old(self)@, bytes@, Self::apply_fn()).1 {
                None => Ok::<(), WireError>(()),
                Some(e) => Err::<(), WireError>(e),
            },
    {
        let ghost total = merge_run(self@, bytes@, Self::apply_fn());
        let mut cur = Self::default();
        std::mem::swap(&mut cur, self);
        let mut pos: usize = 0;
        assert(bytes@.skip(0) =~= bytes@);
        while pos < bytes.len()
            invariant
                pos <= bytes@.len(),
                total == merge_run(old(self)@, bytes@, Self::apply_fn()),
                merge_run(cur@, bytes@.skip(pos as int), Self::apply_fn()) == total,
            decreases bytes@.len() - pos,
        {
            let ghost s = bytes@.skip(pos as int);
            proof {
                lemma_merge_run_step(cur@, s, Self::apply_fn());
                lemma_parse_field_len(s);
            }
            match read_field(bytes, pos) {
                Ok((f, end)) => {
                    assert(bytes@.skip(end as int) =~= s.skip((end - pos) as int));
                    match cur.applied(&f) {
                        Ok(m) => {
                            cur = m;
                        },
                        Err((m, e)) => {
                            *self = m;
                            return Err(e);
                        },
                    }
                    pos = end;
                },
                Err(e) => {
                    *self = cur;
                    return Err(e);
                },
            }
        }
        assert(bytes@.skip(pos as int) =~= Seq::<u8>::empty());
        proof {
            lemma_merge_run_empty(cur@, Self::apply_fn());
        }
        *self = cur;
        Ok(())
    }

    /// Decodes a message from its encoding.
    pub fn decode(bytes: &[u8]) -> (r: Result<Self, WireError>)
        ensures
            match Self::spec_decode(bytes@) {
                Ok(v) => r matches Ok(m) && m@ == v,
                Err(e) => r matches Err(x) && x == e,
            },
    {
        proof {
            reveal(CPublishedFile_CanSubscribe_Request::spec_decode);
        }
        let mut m = Self::default();
        match m.merge(bytes) {
            Ok(()) => Ok(m),
            Err(e) => Err(e),
        }
    }

    /// The encoding of this message.
    pub fn encode_to_vec(&self) -> (r: Vec<u8>)
        ensures
            r@ == Self::spec_encode(self@),
    {
        let ghost v = self@;
        let mut out: Vec<u8> = Vec::new();
        let ghost p0 = Seq::<SpecField>::empty();
        put_opt_varint(&mut out, 1, self.publishedfileid);
        let ghost p1 = p0 + opt_u64(1, v.publishedfileid);
        proof {
            lemma_fields_bytes_concat(p0, opt_u64(1, v.publishedfileid));
        }
        proof {
            reveal(CPublishedFile_CanSubscribe_Request::spec_encode);
        }
        assert(p1 == Self::spec_fields(v));
        out
    }

    /// Appends the encoding of this message to `out`.
    pub fn encode_raw(&self, out: &mut Vec<u8>)
        ensures
            final(out)@ == old(out)@ + Self::spec_encode(self@),
    {
        let mut b = self.encode_to_vec();
        out.append(&mut b);
    }

    /// The first `k` fields of `v`, the others as a fresh message has them.
    #[verifier::opaque]
    pub open spec fn spec_prefix(v: SpecCPublishedFile_CanSubscribe_Request, k: int) -> SpecCPublishedFile_CanSubscribe_Request {
        SpecCPublishedFile_CanSubscribe_Request {
            publishedfileid: if 1 <= k { v.publishedfileid } else { None },
        }
    }

    /// Reading field 1 back, after the fields before it.
    proof fn lemma_field_publishedfileid(v: SpecCPublishedFile_CanSubscribe_Request)
        ensures
            fold_fields(Self::spec_prefix(v, 0), opt_u64(1, v.publishedfileid), Self::apply_fn())
                == Ok::<SpecCPublishedFile_CanSubscribe_Request, WireError>(Self::spec_prefix(v, 1)),
    {
        reveal(CPublishedFile_CanSubscribe_Request::spec_prefix);
        reveal(opt_u64);
        let apply = Self::apply_fn();
        let s = Self::spec_prefix(v, 0);
        lemma_fold_opt(s, 1, match v.publishedfileid { Some(x) => Some(enc_u64(x)), None => None }, apply);
        if let Some(x) = v.publishedfileid {
            lemma_u64_roundtrip(x);
        }
        assert(SpecCPublishedFile_CanSubscribe_Request { publishedfileid: v.publishedfileid, ..s } == Self::spec_prefix(v, 1));
    }

    /// Whether this message declares field number `n`.
    pub open spec fn declares(n: u32) -> bool {
        n == 1
    }

    /// A record with a number this message does not declare is passed over: well-formed
    /// bytes decode to the same message with such a record after them as without it.
    pub proof fn lemma_unknown_field(bytes: Seq<u8>, f: SpecField)
        requires
            parse_fields(bytes) is Ok,
            field_wf(f),
            !Self::declares(f.number),
        ensures
            Self::spec_decode(bytes + field_bytes(f)) == Self::spec_decode(bytes),
    {
        reveal(CPublishedFile_CanSubscribe_Request::spec_decode);
        lemma_parse_fields_append(bytes, f);
        let fs = parse_fields(bytes).unwrap();
        let apply = Self::apply_fn();
        lemma_fold_concat(Self::spec_default(), fs, seq![f], apply);
        assert(fs.push(f) =~= fs + seq![f]);
        if let Ok(w) = fold_fields(Self::spec_default(), fs, apply) {
            lemma_fold_single(w, f, apply);
        }
        lemma_merge_run_fold(Self::spec_default(), bytes, apply);
        lemma_merge_run_fold(Self::spec_default(), bytes + field_bytes(f), apply);
    }

    /// Decoding the encoding of a message gives the message back.
    pub proof fn lemma_decode_encode(v: SpecCPublishedFile_CanSubscribe_Request)
        requires
            Self::spec_encode(v).len() <= u64::MAX,
        ensures
            Self::spec_decode(Self::spec_encode(v)) == Ok::<SpecCPublishedFile_CanSubscribe_Request, WireError>(v),
    {
        let apply = Self::apply_fn();
        let d = Self::spec_default();
        let p0 = Seq::<SpecField>::empty();
        let l1 = opt_u64(1, v.publishedfileid);
        let p1 = p0 + l1;
        assert(parse_fields(Self::spec_encode(v)) == Ok::<Seq<SpecField>, WireError>(p1)) by {
            reveal(CPublishedFile_CanSubscribe_Request::spec_encode);
            assert(numbers_ok(p0) && fields_wf(p0)) by {
                reveal(numbers_ok);
                reveal(fields_wf);
            }
            lemma_opt_u64_numbered(1, v.publishedfileid);
            lemma_fields_wf_concat(p0, l1);
            assert(p1 == Self::spec_fields(v));
            lemma_fields_wf_from_len(p1);
            lemma_fields_roundtrip(p1);
        }
        assert(Self::spec_prefix(v, 0) == d) by {
            reveal(CPublishedFile_CanSubscribe_Request::spec_prefix);
        }
        lemma_fold_empty(d, apply);
        lemma_fold_concat(d, p0, l1, apply);
        Self::lemma_field_publishedfileid(v);
        assert(Self::spec_prefix(v, 1) == v) by {
            reveal(CPublishedFile_CanSubscribe_Request::spec_prefix);
        }
        lemma_merge_run_fold(d, Self::spec_encode(v), apply);
        assert(Self::spec_decode(Self::spec_encode(v)) == Ok::<SpecCPublishedFile_CanSubscribe_Request, WireError>(v)) by {
            reveal(CPublishedFile_CanSubscribe_Request::spec_decode);
        }
    }
}

/// `CPublishedFile_CanSubscribe_Response`, as Valve's schema declares it.
#[derive(Debug, Clone, PartialEq)]
pub struct CPublishedFile_CanSubscribe_Response {
    /// Field 1.
    pub can_subscribe: Option<bool>,
}

/// What a `CPublishedFile_CanSubscribe_Response` holds, as mathematical values.
#[verifier::ext_equal]
pub struct SpecCPublishedFile_CanSubscribe_Response {
    pub can_subscribe: Option<bool>,
}

impl View for CPublishedFile_CanSubscribe_Response {
    type V = SpecCPublishedFile_CanSubscribe_Response;

    open spec fn view(&self) -> SpecCPublishedFile_CanSubscribe_Response {
        SpecCPublishedFile_CanSubscribe_Response {
            can_subscribe: self.can_subscribe,
        }
    }
}

impl Default for CPublishedFile_CanSubscribe_Response {
    fn default() -> (r: Self)
        ensures
            r@ == CPublishedFile_CanSubscribe_Response::spec_default(),
    {
        CPublishedFile_CanSubscribe_Response {
            can_subscribe: None,
        }
    }
}

impl CPublishedFile_CanSubscribe_Response {
    pub open spec fn spec_default() -> SpecCPublishedFile_CanSubscribe_Response {
        SpecCPublishedFile_CanSubscribe_Response {
            can_subscribe: None,
        }
    }

    /// The records a `CPublishedFile_CanSubscribe_Response` is written as, in field order.
    pub open spec fn spec_fields(v: SpecCPublishedFile_CanSubscribe_Response) -> Seq<SpecField> {
        Seq::<SpecField>::empty()
            + opt_bool(1, v.can_subscribe)
    }

    #[verifier::opaque]
    pub open spec fn spec_encode(v: SpecCPublishedFile_CanSubscribe_Response) -> Seq<u8> {
        fields_bytes(Self::spec_fields(v))
    }

    /// What one record does to the message: a declared number sets or extends its
    /// field, any other number is left alone.
    pub open spec fn spec_apply(v: SpecCPublishedFile_CanSubscribe_Response, f: SpecField) -> Result<SpecCPublishedFile_CanSubscribe_Response, WireError> {
        match f.number {
            1 => match dec_bool(f.value) {
                Ok(x) => Ok(SpecCPublishedFile_CanSubscribe_Response { can_subscribe: Some(x), ..v }),
                Err(e) => Err(e),
            },
            _ => Ok(v),
        }
    }

    pub open spec fn apply_fn() -> spec_fn(SpecCPublishedFile_CanSubscribe_Response, SpecField) -> Result<SpecCPublishedFile_CanSubscribe_Response, WireError> {
        |v: SpecCPublishedFile_CanSubscribe_Response, f: SpecField| Self::spec_apply(v, f)
    }

    /// The message `bytes` makes of `v`: its records applied in order, or the error
    /// that stops the reading.
    pub open spec fn spec_merge(v: SpecCPublishedFile_CanSubscribe_Response, bytes: Seq<u8>) -> Result<SpecCPublishedFile_CanSubscribe_Response, WireError> {
        let (w, stop) = merge_run(v, bytes, Self::apply_fn());
        match stop {
            None => Ok(w),
            Some(e) => Err(e),
        }
    }

    #[verifier::opaque]
    pub open spec fn spec_decode(bytes: Seq<u8>) -> Result<SpecCPublishedFile_CanSubscribe_Response, WireError> {
        Self::spec_merge(Self::spec_default(), bytes)
    }

    /// This message with one record applied to it, or, when the record is refused,
    /// the message unchanged and the reason.
    fn applied(self, f: &Field) -> (r: Result<Self, (Self, WireError)>)
        ensures
            match Self::spec_apply(self@, f@) {
                Ok(v) => r matches Ok(m) && m@ == v,
                Err(e) => r matches Err((m, x)) && x == e && m@ == self@,
            },
    {
        match f.number {
            1 => match read_bool(&f.value) {
                Ok(x) => Ok(Self { can_subscribe: Some(x), ..self }),
                Err(e) => Err((self, e)),
            },
            _ => Ok(self),
        }
    }

    /// Reads the records `bytes` holds into this message, in order. When a record does
    /// not parse or is refused, the reading stops there: the message keeps what the
    /// records before it gave, and the error is returned.
    pub fn merge(&mut self, bytes: &[u8]) -> (r: Result<(), WireError>)
        ensures
            final(self)@ == merge_run(old(self)@, bytes@, Self::apply_fn()).0,
            r == match merge_run(old(self)@, bytes@, Self::apply_fn()).1 {
                None => Ok::<(), WireError>(()),
                Some(e) => Err::<(), WireError>(e),
            },
    {
        let ghost total = merge_run(self@, bytes@, Self::apply_fn());
        let mut cur = Self::default();
        std::mem::swap(&mut cur, self);
        let mut pos: usize = 0;
        assert(bytes@.skip(0) =~= bytes@);
        while pos < bytes.len()
            invariant
                pos <= bytes@.len(),
                total == merge_run(old(self)@, bytes@, Self::apply_fn()),
                merge_run(cur@, bytes@.skip(pos as int), Self::apply_fn()) == total,
            decreases bytes@.len() - pos,
        {
            let ghost s = bytes@.skip(pos as int);
            proof {
                lemma_merge_run_step(cur@, s, Self::apply_fn());
                lemma_parse_field_len(s);
            }
            match read_field(bytes, pos) {
                Ok((f, end)) => {
                    assert(bytes@.skip(end as int) =~= s.skip((end - pos) as int));
                    match cur.applied(&f) {
                        Ok(m) => {
                            cur = m;
                        },
                        Err((m, e)) => {
                            *self = m;
                            return Err(e);
                        },
                    }
                    pos = end;
                },
                Err(e) => {
                    *self = cur;
                    return Err(e);
                },
            }
        }
        assert(bytes@.skip(pos as int) =~= Seq::<u8>::empty());
        proof {
            lemma_merge_run_empty(cur@, Self::apply_fn());
        }
        *self = cur;
        Ok(())
    }

    /// Decodes a message from its encoding.
    pub fn decode(bytes: &[u8]) -> (r: Result<Self, WireError>)
        ensures
            match Self::spec_decode(bytes@) {
                Ok(v) => r matches Ok(m) && m@ == v,
                Err(e) => r matches Err(x) && x == e,
            },
    {
        proof {
            reveal(CPublishedFile_CanSubscribe_Response::spec_decode);
        }
        let mut m = Self::default();
        match m.merge(bytes) {
            Ok(()) => Ok(m),
            Err(e) => Err(e),
        }
    }

    /// The encoding of this message.
    pub fn encode_to_vec(&self) -> (r: Vec<u8>)
        ensures
            r@ == Self::spec_encode(self@),
    {
        let ghost v = self@;
        let mut out: Vec<u8> = Vec::new();
        let ghost p0 = Seq::<SpecField>::empty();
        put_opt_bool(&mut out, 1, self.can_subscribe);
        let ghost p1 = p0 + opt_bool(1, v.can_subscribe);
        proof {
            lemma_fields_bytes_concat(p0, opt_bool(1, v.can_subscribe));
        }
        proof {
            reveal(CPublishedFile_CanSubscribe_Response::spec_encode);
        }
        assert(p1 == Self::spec_fields(v));
        out
    }

    /// Appends the encoding of this message to `out`.
    pub fn encode_raw(&self, out: &mut Vec<u8>)
        ensures
            final(out)@ == old(out)@ + Self::spec_encode(self@),
    {
        let mut b = self.encode_to_vec();
        out.append(&mut b);
    }

    /// The first `k` fields of `v`, the others as a fresh message has them.
    #[verifier::opaque]
    pub open spec fn spec_prefix(v: SpecCPublishedFile_CanSubscribe_Response, k: int) -> SpecCPublishedFile_CanSubscribe_Response {
        SpecCPublishedFile_CanSubscribe_Response {
            can_subscribe: if 1 <= k { v.can_subscribe } else { None },
        }
    }

    /// Reading field 1 back, after the fields before it.
    proof fn lemma_field_can_subscribe(v: SpecCPublishedFile_CanSubscribe_Response)
        ensures
            fold_fields(Self::spec_prefix(v, 0), opt_bool(1, v.can_subscribe), Self::apply_fn())
                == Ok::<SpecCPublishedFile_CanSubscribe_Response, WireError>(Self::spec_prefix(v, 1)),
    {
        reveal(CPublishedFile_CanSubscribe_Response::spec_prefix);
        reveal(opt_bool);
        let apply = Self::apply_fn();
        let s = Self::spec_prefix(v, 0);
        lemma_fold_opt(s, 1, match v.can_subscribe { Some(x) => Some(enc_bool(x)), None => None }, apply);
        assert(SpecCPublishedFile_CanSubscribe_Response { can_subscribe: v.can_subscribe, ..s } == Self::spec_prefix(v, 1));
    }

    /// Whether this message declares field number `n`.
    pub open spec fn declares(n: u32) -> bool {
        n == 1
    }

    /// A record with a number this message does not declare is passed over: well-formed
    /// bytes decode to the same message with such a record after them as without it.
    pub proof fn lemma_unknown_field(bytes: Seq<u8>, f: SpecField)
        requires
            parse_fields(bytes) is Ok,
            field_wf(f),
            !Self::declares(f.number),
        ensures
            Self::spec_decode(bytes + field_bytes(f)) == Self::spec_decode(bytes),
    {
        reveal(CPublishedFile_CanSubscribe_Response::spec_decode);
        lemma_parse_fields_append(bytes, f);
        let fs = parse_fields(bytes).unwrap();
        let apply = Self::apply_fn();
        lemma_fold_concat(Self::spec_default(), fs, seq![f], apply);
        assert(fs.push(f) =~= fs + seq![f]);
        if let Ok(w) = fold_fields(Self::spec_default(), fs, apply) {
            lemma_fold_single(w, f, apply);
        }
        lemma_merge_run_fold(Self::spec_default(), bytes, apply);
        lemma_merge_run_fold(Self::spec_default(), bytes + field_bytes(f), apply);
    }

    /// Decoding the encoding of a message gives the message back.
    pub proof fn lemma_decode_encode(v: SpecCPublishedFile_CanSubscribe_Response)
        requires
            Self::spec_encode(v).len() <= u64::MAX,
        ensures
            Self::spec_decode(Self::spec_encode(v)) == Ok::<SpecCPublishedFile_CanSubscribe_Response, WireError>(v),
    {
        let apply = Self::apply_fn();
        let d = Self::spec_default();
        let p0 = Seq::<SpecField>::empty();
        let l1 = opt_bool(1, v.can_subscribe);
        let p1 = p0 + l1;
        assert(parse_fields(Self::spec_encode(v)) == Ok::<Seq<SpecField>, WireError>(p1)) by {
            reveal(CPublishedFile_CanSubscribe_Response::spec_encode);
            assert(numbers_ok(p0) && fields_wf(p0)) by {
                reveal(numbers_ok);
                reveal(fields_wf);
            }
            lemma_opt_bool_numbered(1, v.can_subscribe);
            lemma_fields_wf_concat(p0, l1);
            assert(p1 == Self::spec_fields(v));
            lemma_fields_wf_from_len(p1);
            lemma_fields_roundtrip(p1);
        }
        assert(Self::spec_prefix(v, 0) == d) by {
            reveal(CPublishedFile_CanSubscribe_Response::spec_prefix);
        }
        lemma_fold_empty(d, apply);
        lemma_fold_concat(d, p0, l1, apply);
        Self::lemma_field_can_subscribe(v);
        assert(Self::spec_prefix(v, 1) == v) by {
            reveal(CPublishedFile_CanSubscribe_Response::spec_prefix);
        }
        lemma_merge_run_fold(d, Self::spec_encode(v), apply);
        assert(Self::spec_decode(Self::spec_encode(v)) == Ok::<SpecCPublishedFile_CanSubscribe_Response, WireError>(v)) by {
            reveal(CPublishedFile_CanSubscribe_Response::spec_decode);
        }
    }
}

/// `CPublishedFile_GetSubSectionData_Request`, as Valve's schema declares it.
#[derive(Debug, Clone, PartialEq)]
pub struct CPublishedFile_GetSubSectionData_Request {
    /// Field 1.
    pub publishedfileid: Option<u64>,
    /// Field 2.
    pub for_table_of_contents: Option<bool>,
    /// Field 3.
    pub specific_sectionid: Option<u64>,
    /// Field 4.
    pub desired_revision: Option<crate::steammessages_publishedfile_steamclient::EPublishedFileRevision>,
}

/// What a `CPublishedFile_GetSubSectionData_Request` holds, as mathematical values.
#[verifier::ext_equal]
pub struct SpecCPublishedFile_GetSubSectionData_Request {
    pub publishedfileid: Option<u64>,
    pub for_table_of_contents: Option<bool>,
    pub specific_sectionid: Option<u64>,
    pub desired_revision: Option<i32>,
}

impl View for CPublishedFile_GetSubSectionData_Request {
    type V = SpecCPublishedFile_GetSubSectionData_Request;

    open spec fn view(&self) -> SpecCPublishedFile_GetSubSectionData_Request {
        SpecCPublishedFile_GetSubSectionData_Request {
            publishedfileid: self.publishedfileid,
            for_table_of_contents: self.for_table_of_contents,
            specific_sectionid: self.specific_sectionid,
            desired_revision: match self.desired_revision { Some(e) => Some(e.0), None => None },
        }
    }
}

impl Default for CPublishedFile_GetSubSectionData_Request {
    fn default() -> (r: Self)
        ensures
            r@ == CPublishedFile_GetSubSectionData_Request::spec_default(),
    {
        CPublishedFile_GetSubSectionData_Request {
            publishedfileid: None,
            for_table_of_contents: None,
            specific_sectionid: None,
            desired_revision: None,
        }
    }
}

impl CPublishedFile_GetSubSectionData_Request {
    /// Field 4, or its schema default when absent.
    pub fn desired_revision_or_default(&self) -> (r: crate::steammessages_publishedfile_steamclient::EPublishedFileRevision)
        ensures
            r == match self.desired_revision {
                Some(e) => e,
                None => crate::steammessages_publishedfile_steamclient::EPublishedFileRevision(0),
            },
    {
        match self.desired_revision {
            Some(e) => e,
            None => crate::steammessages_publishedfile_steamclient::EPublishedFileRevision::k_EPublishedFileRevision_Default(),
        }
    }

    pub open spec fn spec_default() -> SpecCPublishedFile_GetSubSectionData_Request {
        SpecCPublishedFile_GetSubSectionData_Request {
            publishedfileid: None,
            for_table_of_contents: None,
            specific_sectionid: None,
            desired_revision: None,
        }
    }

    /// The records a `CPublishedFile_GetSubSectionData_Request` is written as, in field order.
    pub open spec fn spec_fields(v: SpecCPublishedFile_GetSubSectionData_Request) -> Seq<SpecField> {
        Seq::<SpecField>::empty()
            + opt_u64(1, v.publishedfileid)
            + opt_bool(2, v.for_table_of_contents)
            + opt_u64(3, v.specific_sectionid)
            + opt_i32(4, v.desired_revision)
    }

    #[verifier::opaque]
    pub open spec fn spec_encode(v: SpecCPublishedFile_GetSubSectionData_Request) -> Seq<u8> {
        fields_bytes(Self::spec_fields(v))
    }

    /// What one record does to the message: a declared number sets or extends its
    /// field, any other number is left alone.
    pub open spec fn spec_apply(v: SpecCPublishedFile_GetSubSectionData_Request, f: SpecField) -> Result<SpecCPublishedFile_GetSubSectionData_Request, WireError> {
        match f.number {
            1 => match dec_u64(f.value) {
                Ok(x) => Ok(SpecCPublishedFile_GetSubSectionData_Request { publishedfileid: Some(x), ..v }),
                Err(e) => Err(e),
            },
            2 => match dec_bool(f.value) {
                Ok(x) => Ok(SpecCPublishedFile_GetSubSectionData_Request { for_table_of_contents: Some(x), ..v }),
                Err(e) => Err(e),
            },
            3 => match dec_u64(f.value) {
                Ok(x) => Ok(SpecCPublishedFile_GetSubSectionData_Request { specific_sectionid: Some(x), ..v }),
                Err(e) => Err(e),
            },
            4 => match dec_i32(f.value) {
                Ok(x) => Ok(SpecCPublishedFile_GetSubSectionData_Request { desired_revision: Some(x), ..v }),
                Err(e) => Err(e),
            },
            _ => Ok(v),
        }
    }

    pub open spec fn apply_fn() -> spec_fn(SpecCPublishedFile_GetSubSectionData_Request, SpecField) -> Result<SpecCPublishedFile_GetSubSectionData_Request, WireError> {
        |v: SpecCPublishedFile_GetSubSectionData_Request, f: SpecField| Self::spec_apply(v, f)
    }

    /// The message `bytes` makes of `v`: its records applied in order, or the error
    /// that stops the reading.
    pub open spec fn spec_merge(v: SpecCPublishedFile_GetSubSectionData_Request, bytes: Seq<u8>) -> Result<SpecCPublishedFile_GetSubSectionData_Request, WireError> {
        let (w, stop) = merge_run(v, bytes, Self::apply_fn());
        match stop {
            None => Ok(w),
            Some(e) => Err(e),
        }
    }

    #[verifier::opaque]
    pub open spec fn spec_decode(bytes: Seq<u8>) -> Result<SpecCPublishedFile_GetSubSectionData_Request, WireError> {
        Self::spec_merge(Self::spec_default(), bytes)
    }

    /// This message with one record applied to it, or, when the record is refused,
    /// the message unchanged and the reason.
    fn applied(self, f: &Field) -> (r: Result<Self, (Self, WireError)>)
        ensures
            match Self::spec_apply(self@, f@) {
                Ok(v) => r matches Ok(m) && m@ == v,
                Err(e) => r matches Err((m, x)) && x == e && m@ == self@,
            },
    {
        match f.number {
            1 => match read_u64(&f.value) {
                Ok(x) => Ok(Self { publishedfileid: Some(x), ..self }),
                Err(e) => Err((self, e)),
            },
            2 => match read_bool(&f.value) {
                Ok(x) => Ok(Self { for_table_of_contents: Some(x), ..self }),
                Err(e) => Err((self, e)),
            },
            3 => match read_u64(&f.value) {
                Ok(x) => Ok(Self { specific_sectionid: Some(x), ..self }),
                Err(e) => Err((self, e)),
            },
            4 => match read_i32(&f.value) {
                Ok(x) => Ok(Self { desired_revision: Some(crate::steammessages_publishedfile_steamclient::EPublishedFileRevision(x)), ..self }),
                Err(e) => Err((self, e)),
            },
            _ => Ok(self),
        }
    }

    /// Reads the records `bytes` holds into this message, in order. When a record does
    /// not parse or is refused, the reading stops there: the message keeps what the
    /// records before it gave, and the error is returned.
    pub fn merge(&mut self, bytes: &[u8]) -> (r: Result<(), WireError>)
        ensures
            final(self)@ == merge_run(old(self)@, bytes@, Self::apply_fn()).0,
            r == match merge_run(old(self)@, bytes@, Self::apply_fn()).1 {
                None => Ok::<(), WireError>(()),
                Some(e) => Err::<(), WireError>(e),
            },
    {
        let ghost total = merge_run(self@, bytes@, Self::apply_fn());
        let mut cur = Self::default();
        std::mem::swap(&mut cur, self);
        let mut pos: usize = 0;
        assert(bytes@.skip(0) =~= bytes@);
        while pos < bytes.len()
            invariant
                pos <= bytes@.len(),
                total == merge_run(old(self)@, bytes@, Self::apply_fn()),
                merge_run(cur@, bytes@.skip(pos as int), Self::apply_fn()) == total,
            decreases bytes@.len() - pos,
        {
            let ghost s = bytes@.skip(pos as int);
            proof {
                lemma_merge_run_step(cur@, s, Self::apply_fn());
                lemma_parse_field_len(s);
            }
            match read_field(bytes, pos) {
                Ok((f, end)) => {
                    assert(bytes@.skip(end as int) =~= s.skip((end - pos) as int));
                    match cur.applied(&f) {
                        Ok(m) => {
                            cur = m;
                        },
                        Err((m, e)) => {
                            *self = m;
                            return Err(e);
                        },
                    }
                    pos = end;
                },
                Err(e) => {
                    *self = cur;
                    return Err(e);
                },
            }
        }
        assert(bytes@.skip(pos as int) =~= Seq::<u8>::empty());
        proof {
            lemma_merge_run_empty(cur@, Self::apply_fn());
        }
        *self = cur;
        Ok(())
    }

    /// Decodes a message from its encoding.
    pub fn decode(bytes: &[u8]) -> (r: Result<Self, WireError>)
        ensures
            match Self::spec_decode(bytes@) {
                Ok(v) => r matches Ok(m) && m@ == v,
                Err(e) => r matches Err(x) && x == e,
            },
    {
        proof {
            reveal(CPublishedFile_GetSubSectionData_Request::spec_decode);
        }
        let mut m = Self::default();
        match m.merge(bytes) {
            Ok(()) => Ok(m),
            Err(e) => Err(e),
        }
    }

    /// The encoding of this message.
    pub fn encode_to_vec(&self) -> (r: Vec<u8>)
        ensures
            r@ == Self::spec_encode(self@),
    {
        let ghost v = self@;
        let mut out: Vec<u8> = Vec::new();
        let ghost p0 = Seq::<SpecField>::empty();
        put_opt_varint(&mut out, 1, self.publishedfileid);
        let ghost p1 = p0 + opt_u64(1, v.publishedfileid);
        proof {
            lemma_fields_bytes_concat(p0, opt_u64(1, v.publishedfileid));
        }
        put_opt_bool(&mut out, 2, self.for_table_of_contents);
        let ghost p2 = p1 + opt_bool(2, v.for_table_of_contents);
        proof {
            lemma_fields_bytes_concat(p1, opt_bool(2, v.for_table_of_contents));
        }
        put_opt_varint(&mut out, 3, self.specific_sectionid);
        let ghost p3 = p2 + opt_u64(3, v.specific_sectionid);
        proof {
            lemma_fields_bytes_concat(p2, opt_u64(3, v.specific_sectionid));
        }
        put_opt_i32(&mut out, 4, match self.desired_revision { Some(e) => Some(e.0), None => None });
        let ghost p4 = p3 + opt_i32(4, v.desired_revision);
        proof {
            lemma_fields_bytes_concat(p3, opt_i32(4, v.desired_revision));
        }
        proof {
            reveal(CPublishedFile_GetSubSectionData_Request::spec_encode);
        }
        assert(p4 == Self::spec_fields(v));
        out
    }

    /// Appends the encoding of this message to `out`.
    pub fn encode_raw(&self, out: &mut Vec<u8>)
        ensures
            final(out)@ == old(out)@ + Self::spec_encode(self@),
    {
        let mut b = self.encode_to_vec();
        out.append(&mut b);
    }

    /// The first `k` fields of `v`, the others as a fresh message has them.
    #[verifier::opaque]
    pub open spec fn spec_prefix(v: SpecCPublishedFile_GetSubSectionData_Request, k: int) -> SpecCPublishedFile_GetSubSectionData_Request {
        SpecCPublishedFile_GetSubSectionData_Request {
            publishedfileid: if 1 <= k { v.publishedfileid } else { None },
            for_table_of_contents: if 2 <= k { v.for_table_of_contents } else { None },
            specific_sectionid: if 3 <= k { v.specific_sectionid } else { None },
            desired_revision: if 4 <= k { v.desired_revision } else { None },
        }
    }

    /// Reading field 1 back, after the fields before it.
    proof fn lemma_field_publishedfileid(v: SpecCPublishedFile_GetSubSectionData_Request)
        ensures
            fold_fields(Self::spec_prefix(v, 0), opt_u64(1, v.publishedfileid), Self::apply_fn())
                == Ok::<SpecCPublishedFile_GetSubSectionData_Request, WireError>(Self::spec_prefix(v, 1)),
    {
        reveal(CPublishedFile_GetSubSectionData_Request::spec_prefix);
        reveal(opt_u64);
        let apply = Self::apply_fn();
        let s = Self::spec_prefix(v, 0);
        lemma_fold_opt(s, 1, match v.publishedfileid { Some(x) => Some(enc_u64(x)), None => None }, apply);
        if let Some(x) = v.publishedfileid {
            lemma_u64_roundtrip(x);
        }
        assert(SpecCPublishedFile_GetSubSectionData_Request { publishedfileid: v.publishedfileid, ..s } == Self::spec_prefix(v, 1));
    }

    /// Reading field 2 back, after the fields before it.
    proof fn lemma_field_for_table_of_contents(v: SpecCPublishedFile_GetSubSectionData_Request)
        ensures
            fold_fields(Self::spec_prefix(v, 1), opt_bool(2, v.for_table_of_contents), Self::apply_fn())
                == Ok::<SpecCPublishedFile_GetSubSectionData_Request, WireError>(Self::spec_prefix(v, 2)),
    {
        reveal(CPublishedFile_GetSubSectionData_Request::spec_prefix);
        reveal(opt_bool);
        let apply = Self::apply_fn();
        let s = Self::spec_prefix(v, 1);
        lemma_fold_opt(s, 2, match v.for_table_of_contents { Some(x) => Some(enc_bool(x)), None => None }, apply);
        assert(SpecCPublishedFile_GetSubSectionData_Request { for_table_of_contents: v.for_table_of_contents, ..s } == Self::spec_prefix(v, 2));
    }

    /// Reading field 3 back, after the fields before it.
    proof fn lemma_field_specific_sectionid(v: SpecCPublishedFile_GetSubSectionData_Request)
        ensures
            fold_fields(Self::spec_prefix(v, 2), opt_u64(3, v.specific_sectionid), Self::apply_fn())
                == Ok::<SpecCPublishedFile_GetSubSectionData_Request, WireError>(Self::spec_prefix(v, 3)),
    {
        reveal(CPublishedFile_GetSubSectionData_Request::spec_prefix);
        reveal(opt_u64);
        let apply = Self::apply_fn();
        let s = Self::spec_prefix(v, 2);
        lemma_fold_opt(s, 3, match v.specific_sectionid { Some(x) => Some(enc_u64(x)), None => None }, apply);
        if let Some(x) = v.specific_sectionid {
            lemma_u64_roundtrip(x);
        }
        assert(SpecCPublishedFile_GetSubSectionData_Request { specific_sectionid: v.specific_sectionid, ..s } == Self::spec_prefix(v, 3));
    }

    /// Reading field 4 back, after the fields before it.
    proof fn lemma_field_desired_revision(v: SpecCPublishedFile_GetSubSectionData_Request)
        ensures
            fold_fields(Self::spec_prefix(v, 3), opt_i32(4, v.desired_revision), Self::apply_fn())
                == Ok::<SpecCPublishedFile_GetSubSectionData_Request, WireError>(Self::spec_prefix(v, 4)),
    {
        reveal(CPublishedFile_GetSubSectionData_Request::spec_prefix);
        reveal(opt_i32);
        let apply = Self::apply_fn();
        let s = Self::spec_prefix(v, 3);
        lemma_fold_opt(s, 4, match v.desired_revision { Some(x) => Some(enc_i32(x)), None => None }, apply);
        if let Some(x) = v.desired_revision {
            lemma_i32_roundtrip(x);
        }
        assert(SpecCPublishedFile_GetSubSectionData_Request { desired_revision: v.desired_revision, ..s } == Self::spec_prefix(v, 4));
    }

    /// Whether this message declares field number `n`.
    pub open spec fn declares(n: u32) -> bool {
        n == 1 || n == 2 || n == 3 || n == 4
    }

    /// A record with a number this message does not declare is passed over: well-formed
    /// bytes decode to the same message with such a record after them as without it.
    pub proof fn lemma_unknown_field(bytes: Seq<u8>, f: SpecField)
        requires
            parse_fields(bytes) is Ok,
            field_wf(f),
            !Self::declares(f.number),
        ensures
            Self::spec_decode(bytes + field_bytes(f)) == Self::spec_decode(bytes),
    {
        reveal(CPublishedFile_GetSubSectionData_Request::spec_decode);
        lemma_parse_fields_append(bytes, f);
        let fs = parse_fields(bytes).unwrap();
        let apply = Self::apply_fn();
        lemma_fold_concat(Self::spec_default(), fs, seq![f], apply);
        assert(fs.push(f) =~= fs + seq![f]);
        if let Ok(w) = fold_fields(Self::spec_default(), fs, apply) {
            lemma_fold_single(w, f, apply);
        }
        lemma_merge_run_fold(Self::spec_default(), bytes, apply);
        lemma_merge_run_fold(Self::spec_default(), bytes + field_bytes(f), apply);
    }

    /// Decoding the encoding of a message gives the message back.
    pub proof fn lemma_decode_encode(v: SpecCPublishedFile_GetSubSectionData_Request)
        requires
            Self::spec_encode(v).len() <= u64::MAX,
        ensures
            Self::spec_decode(Self::spec_encode(v)) == Ok::<SpecCPublishedFile_GetSubSectionData_Request, WireError>(v),
    {
        let apply = Self::apply_fn();
        let d = Self::spec_default();
        let p0 = Seq::<SpecField>::empty();
        let l1 = opt_u64(1, v.publishedfileid);
        let p1 = p0 + l1;
        let l2 = opt_bool(2, v.for_table_of_contents);
        let p2 = p1 + l2;
        let l3 = opt_u64(3, v.specific_sectionid);
        let p3 = p2 + l3;
        let l4 = opt_i32(4, v.desired_revision);
        let p4 = p3 + l4;
        assert(parse_fields(Self::spec_encode(v)) == Ok::<Seq<SpecField>, WireError>(p4)) by {
            reveal(CPublishedFile_GetSubSectionData_Request::spec_encode);
            assert(numbers_ok(p0) && fields_wf(p0)) by {
                reveal(numbers_ok);
                reveal(fields_wf);
            }
            lemma_opt_u64_numbered(1, v.publishedfileid);
            lemma_fields_wf_concat(p0, l1);
            lemma_opt_bool_numbered(2, v.for_table_of_contents);
            lemma_fields_wf_concat(p1, l2);
            lemma_opt_u64_numbered(3, v.specific_sectionid);
            lemma_fields_wf_concat(p2, l3);
            lemma_opt_i32_numbered(4, v.desired_revision);
            lemma_fields_wf_concat(p3, l4);
            assert(p4 == Self::spec_fields(v));
            lemma_fields_wf_from_len(p4);
            lemma_fields_roundtrip(p4);
        }
        assert(Self::spec_prefix(v, 0) == d) by {
            reveal(CPublishedFile_GetSubSectionData_Request::spec_prefix);
        }
        lemma_fold_empty(d, apply);
        lemma_fold_concat(d, p0, l1, apply);
        Self::lemma_field_publishedfileid(v);
        lemma_fold_concat(d, p1, l2, apply);
        Self::lemma_field_for_table_of_contents(v);
        lemma_fold_concat(d, p2, l3, apply);
        Self::lemma_field_specific_sectionid(v);
        lemma_fold_concat(d, p3, l4, apply);
        Self::lemma_field_desired_revision(v);
        assert(Self::spec_prefix(v, 4) == v) by {
            reveal(CPublishedFile_GetSubSectionData_Request::spec_prefix);
        }
        lemma_merge_run_fold(d, Self::spec_encode(v), apply);
        assert(Self::spec_decode(Self::spec_encode(v)) == Ok::<SpecCPublishedFile_GetSubSectionData_Request, WireError>(v)) by {
            reveal(CPublishedFile_GetSubSectionData_Request::spec_decode);
        }
    }
}

/// `PublishedFileSubSection`, as Valve's schema declares it.
#[derive(Debug, Clone, PartialEq)]
pub struct PublishedFileSubSection {
    /// Field 1.
    pub sectionid: Option<u64>,
    /// Field 2.
    pub title: Option<String>,
    /// Field 3.
    pub description_text: Option<String>,
    /// Field 4.
    pub sort_order: Option<u32>,
}

/// What a `PublishedFileSubSection` holds, as mathematical values.
#[verifier::ext_equal]
pub struct SpecPublishedFileSubSection {
    pub sectionid: Option<u64>,
    pub title: Option<Seq<char>>,
    pub description_text: Option<Seq<char>>,
    pub sort_order: Option<u32>,
}

impl View for PublishedFileSubSection {
    type V = SpecPublishedFileSubSection;

    open spec fn view(&self) -> SpecPublishedFileSubSection {
        SpecPublishedFileSubSection {
            sectionid: self.sectionid,
            title: opt_string_view(self.title),
            description_text: opt_string_view(self.description_text),
            sort_order: self.sort_order,
        }
    }
}

impl Default for PublishedFileSubSection {
    fn default() -> (r: Self)
        ensures
            r@ == PublishedFileSubSection::spec_default(),
    {
        PublishedFileSubSection {
            sectionid: None,
            title: None,
            description_text: None,
            sort_order: None,
        }
    }
}

impl PublishedFileSubSection {
    pub open spec fn spec_default() -> SpecPublishedFileSubSection {
        SpecPublishedFileSubSection {
            sectionid: None,
            title: None,
            description_text: None,
            sort_order: None,
        }
    }

    /// The records a `PublishedFileSubSection` is written as, in field order.
    pub open spec fn spec_fields(v: SpecPublishedFileSubSection) -> Seq<SpecField> {
        Seq::<SpecField>::empty()
            + opt_u64(1, v.sectionid)
            + opt_string(2, v.title)
            + opt_string(3, v.description_text)
            + opt_u32(4, v.sort_order)
    }

    #[verifier::opaque]
    pub open spec fn spec_encode(v: SpecPublishedFileSubSection) -> Seq<u8> {
        fields_bytes(Self::spec_fields(v))
    }

    /// What one record does to the message: a declared number sets or extends its
    /// field, any other number is left alone.
    pub open spec fn spec_apply(v: SpecPublishedFileSubSection, f: SpecField) -> Result<SpecPublishedFileSubSection, WireError> {
        match f.number {
            1 => match dec_u64(f.value) {
                Ok(x) => Ok(SpecPublishedFileSubSection { sectionid: Some(x), ..v }),
                Err(e) => Err(e),
            },
            2 => match dec_string(f.value) {
                Ok(x) => Ok(SpecPublishedFileSubSection { title: Some(x), ..v }),
                Err(e) => Err(e),
            },
            3 => match dec_string(f.value) {
                Ok(x) => Ok(SpecPublishedFileSubSection { description_text: Some(x), ..v }),
                Err(e) => Err(e),
            },
            4 => match dec_u32(f.value) {
                Ok(x) => Ok(SpecPublishedFileSubSection { sort_order: Some(x), ..v }),
                Err(e) => Err(e),
            },
            _ => Ok(v),
        }
    }

    pub open spec fn apply_fn() -> spec_fn(SpecPublishedFileSubSection, SpecField) -> Result<SpecPublishedFileSubSection, WireError> {
        |v: SpecPublishedFileSubSection, f: SpecField| Self::spec_apply(v, f)
    }

    /// The message `bytes` makes of `v`: its records applied in order, or the error
    /// that stops the reading.
    pub open spec fn spec_merge(v: SpecPublishedFileSubSection, bytes: Seq<u8>) -> Result<SpecPublishedFileSubSection, WireError> {
        let (w, stop) = merge_run(v, bytes, Self::apply_fn());
        match stop {
            None => Ok(w),
            Some(e) => Err(e),
        }
    }

    #[verifier::opaque]
    pub open spec fn spec_decode(bytes: Seq<u8>) -> Result<SpecPublishedFileSubSection, WireError> {
        Self::spec_merge(Self::spec_default(), bytes)
    }

    pub open spec fn view_all(xs: Seq<PublishedFileSubSection>) -> Seq<SpecPublishedFileSubSection> {
        xs.map_values(|m: PublishedFileSubSection| m@)
    }

    pub open spec fn view_opt(o: Option<PublishedFileSubSection>) -> Option<SpecPublishedFileSubSection> {
        match o {
            Some(m) => Some(m@),
            None => None,
        }
    }

    pub open spec fn spec_encode_all(xs: Seq<SpecPublishedFileSubSection>) -> Seq<Seq<u8>> {
        xs.map_values(|m: SpecPublishedFileSubSection| Self::spec_encode(m))
    }

    pub open spec fn spec_encode_opt(o: Option<SpecPublishedFileSubSection>) -> Option<Seq<u8>> {
        match o {
            Some(m) => Some(Self::spec_encode(m)),
            None => None,
        }
    }

    /// The encoding of each element.
    pub fn encode_all(xs: &Vec<PublishedFileSubSection>) -> (r: Vec<Vec<u8>>)
        ensures
            bytes_seq_view(r@) == Self::spec_encode_all(Self::view_all(xs@)),
    {
        let mut out: Vec<Vec<u8>> = Vec::new();
        let mut i: usize = 0;
        while i < xs.len()
            invariant
                i <= xs@.len(),
                out@.len() == i,
                forall|j: int| 0 <= j < i ==> #[trigger] out@[j]@ == Self::spec_encode(xs@[j]@),
            decreases xs@.len() - i,
        {
            let e = xs[i].encode_to_vec();
            out.push(e);
            i = i + 1;
        }
        assert(bytes_seq_view(out@) =~= Self::spec_encode_all(Self::view_all(xs@)));
        out
    }

    /// The encoding of the element, when there is one.
    pub fn encode_opt(o: &Option<PublishedFileSubSection>) -> (r: Option<Vec<u8>>)
        ensures
            opt_bytes_view(r) == Self::spec_encode_opt(Self::view_opt(*o)),
    {
        match o {
            Some(m) => Some(m.encode_to_vec()),
            None => None,
        }
    }

    /// This message with one record applied to it, or, when the record is refused,
    /// the message unchanged and the reason.
    fn applied(self, f: &Field) -> (r: Result<Self, (Self, WireError)>)
        ensures
            match Self::spec_apply(self@, f@) {
                Ok(v) => r matches Ok(m) && m@ == v,
                Err(e) => r matches Err((m, x)) && x == e && m@ == self@,
            },
    {
        match f.number {
            1 => match read_u64(&f.value) {
                Ok(x) => Ok(Self { sectionid: Some(x), ..self }),
                Err(e) => Err((self, e)),
            },
            2 => match read_string(&f.value) {
                Ok(x) => Ok(Self { title: Some(x), ..self }),
                Err(e) => Err((self, e)),
            },
            3 => match read_string(&f.value) {
                Ok(x) => Ok(Self { description_text: Some(x), ..self }),
                Err(e) => Err((self, e)),
            },
            4 => match read_u32(&f.value) {
                Ok(x) => Ok(Self { sort_order: Some(x), ..self }),
                Err(e) => Err((self, e)),
            },
            _ => Ok(self),
        }
    }

    /// Reads the records `bytes` holds into this message, in order. When a record does
    /// not parse or is refused, the reading stops there: the message keeps what the
    /// records before it gave, and the error is returned.
    pub fn merge(&mut self, bytes: &[u8]) -> (r: Result<(), WireError>)
        ensures
            final(self)@ == merge_run(old(self)@, bytes@, Self::apply_fn()).0,
            r == match merge_run(old(self)@, bytes@, Self::apply_fn()).1 {
                None => Ok::<(), WireError>(()),
                Some(e) => Err::<(), WireError>(e),
            },
    {
        let ghost total = merge_run(self@, bytes@, Self::apply_fn());
        let mut cur = Self::default();
        std::mem::swap(&mut cur, self);
        let mut pos: usize = 0;
        assert(bytes@.skip(0) =~= bytes@);
        while pos < bytes.len()
            invariant
                pos <= bytes@.len(),
                total == merge_run(old(self)@, bytes@, Self::apply_fn()),
                merge_run(cur@, bytes@.skip(pos as int), Self::apply_fn()) == total,
            decreases bytes@.len() - pos,
        {
            let ghost s = bytes@.skip(pos as int);
            proof {
                lemma_merge_run_step(cur@, s, Self::apply_fn());
                lemma_parse_field_len(s);
            }
            match read_field(bytes, pos) {
                Ok((f, end)) => {
                    assert(bytes@.skip(end as int) =~= s.skip((end - pos) as int));
                    match cur.applied(&f) {
                        Ok(m) => {
                            cur = m;
                        },
                        Err((m, e)) => {
                            *self = m;
                            return Err(e);
                        },
                    }
                    pos = end;
                },
                Err(e) => {
                    *self = cur;
                    return Err(e);
                },
            }
        }
        assert(bytes@.skip(pos as int) =~= Seq::<u8>::empty());
        proof {
            lemma_merge_run_empty(cur@, Self::apply_fn());
        }
        *self = cur;
        Ok(())
    }

    /// Decodes a message from its encoding.
    pub fn decode(bytes: &[u8]) -> (r: Result<Self, WireError>)
        ensures
            match Self::spec_decode(bytes@) {
                Ok(v) => r matches Ok(m) && m@ == v,
                Err(e) => r matches Err(x) && x == e,
            },
    {
        proof {
            reveal(PublishedFileSubSection::spec_decode);
        }
        let mut m = Self::default();
        match m.merge(bytes) {
            Ok(()) => Ok(m),
            Err(e) => Err(e),
        }
    }

    /// The encoding of this message.
    pub fn encode_to_vec(&self) -> (r: Vec<u8>)
        ensures
            r@ == Self::spec_encode(self@),
    {
        let ghost v = self@;
        let mut out: Vec<u8> = Vec::new();
        let ghost p0 = Seq::<SpecField>::empty();
        put_opt_varint(&mut out, 1, self.sectionid);
        let ghost p1 = p0 + opt_u64(1, v.sectionid);
        proof {
            lemma_fields_bytes_concat(p0, opt_u64(1, v.sectionid));
        }
        put_opt_string(&mut out, 2, &self.title);
        let ghost p2 = p1 + opt_string(2, v.title);
        proof {
            lemma_fields_bytes_concat(p1, opt_string(2, v.title));
        }
        put_opt_string(&mut out, 3, &self.description_text);
        let ghost p3 = p2 + opt_string(3, v.description_text);
        proof {
            lemma_fields_bytes_concat(p2, opt_string(3, v.description_text));
        }
        put_opt_u32(&mut out, 4, self.sort_order);
        let ghost p4 = p3 + opt_u32(4, v.sort_order);
        proof {
            lemma_fields_bytes_concat(p3, opt_u32(4, v.sort_order));
        }
        proof {
            reveal(PublishedFileSubSection::spec_encode);
        }
        assert(p4 == Self::spec_fields(v));
        out
    }

    /// Appends the encoding of this message to `out`.
    pub fn encode_raw(&self, out: &mut Vec<u8>)
        ensures
            final(out)@ == old(out)@ + Self::spec_encode(self@),
    {
        let mut b = self.encode_to_vec();
        out.append(&mut b);
    }

    /// The first `k` fields of `v`, the others as a fresh message has them.
    #[verifier::opaque]
    pub open spec fn spec_prefix(v: SpecPublishedFileSubSection, k: int) -> SpecPublishedFileSubSection {
        SpecPublishedFileSubSection {
            sectionid: if 1 <= k { v.sectionid } else { None },
            title: if 2 <= k { v.title } else { None },
            description_text: if 3 <= k { v.description_text } else { None },
            sort_order: if 4 <= k { v.sort_order } else { None },
        }
    }

    /// Reading field 1 back, after the fields before it.
    proof fn lemma_field_sectionid(v: SpecPublishedFileSubSection)
        ensures
            fold_fields(Self::spec_prefix(v, 0), opt_u64(1, v.sectionid), Self::apply_fn())
                == Ok::<SpecPublishedFileSubSection, WireError>(Self::spec_prefix(v, 1)),
    {
        reveal(PublishedFileSubSection::spec_prefix);
        reveal(opt_u64);
        let apply = Self::apply_fn();
        let s = Self::spec_prefix(v, 0);
        lemma_fold_opt(s, 1, match v.sectionid { Some(x) => Some(enc_u64(x)), None => None }, apply);
        if let Some(x) = v.sectionid {
            lemma_u64_roundtrip(x);
        }
        assert(SpecPublishedFileSubSection { sectionid: v.sectionid, ..s } == Self::spec_prefix(v, 1));
    }

    /// Reading field 2 back, after the fields before it.
    proof fn lemma_field_title(v: SpecPublishedFileSubSection)
        ensures
            fold_fields(Self::spec_prefix(v, 1), opt_string(2, v.title), Self::apply_fn())
                == Ok::<SpecPublishedFileSubSection, WireError>(Self::spec_prefix(v, 2)),
    {
        reveal(PublishedFileSubSection::spec_prefix);
        reveal(opt_string);
        let apply = Self::apply_fn();
        let s = Self::spec_prefix(v, 1);
        lemma_fold_opt(s, 2, match v.title { Some(x) => Some(enc_string(x)), None => None }, apply);
        if let Some(x) = v.title {
            lemma_string_roundtrip(x);
        }
        assert(SpecPublishedFileSubSection { title: v.title, ..s } == Self::spec_prefix(v, 2));
    }

    /// Reading field 3 back, after the fields before it.
    proof fn lemma_field_description_text(v: SpecPublishedFileSubSection)
        ensures
            fold_fields(Self::spec_prefix(v, 2), opt_string(3, v.description_text), Self::apply_fn())
                == Ok::<SpecPublishedFileSubSection, WireError>(Self::spec_prefix(v, 3)),
    {
        reveal(PublishedFileSubSection::spec_prefix);
        reveal(opt_string);
        let apply = Self::apply_fn();
        let s = Self::spec_prefix(v, 2);
        lemma_fold_opt(s, 3, match v.description_text { Some(x) => Some(enc_string(x)), None => None }, apply);
        if let Some(x) = v.description_text {
            lemma_string_roundtrip(x);
        }
        assert(SpecPublishedFileSubSection { description_text: v.description_text, ..s } == Self::spec_prefix(v, 3));
    }

    /// Reading field 4 back, after the fields before it.
    proof fn lemma_field_sort_order(v: SpecPublishedFileSubSection)
        ensures
            fold_fields(Self::spec_prefix(v, 3), opt_u32(4, v.sort_order), Self::apply_fn())
                == Ok::<SpecPublishedFileSubSection, WireError>(Self::spec_prefix(v, 4)),
    {
        reveal(PublishedFileSubSection::spec_prefix);
        reveal(opt_u32);
        let apply = Self::apply_fn();
        let s = Self::spec_prefix(v, 3);
        lemma_fold_opt(s, 4, match v.sort_order { Some(x) => Some(enc_u32(x)), None => None }, apply);
        if let Some(x) = v.sort_order {
            lemma_u32_roundtrip(x);
        }
        assert(SpecPublishedFileSubSection { sort_order: v.sort_order, ..s } == Self::spec_prefix(v, 4));
    }

    /// Whether this message declares field number `n`.
    pub open spec fn declares(n: u32) -> bool {
        n == 1 || n == 2 || n == 3 || n == 4
    }

    /// A record with a number this message does not declare is passed over: well-formed
    /// bytes decode to the same message with such a record after them as without it.
    pub proof fn lemma_unknown_field(bytes: Seq<u8>, f: SpecField)
        requires
            parse_fields(bytes) is Ok,
            field_wf(f),
            !Self::declares(f.number),
        ensures
            Self::spec_decode(bytes + field_bytes(f)) == Self::spec_decode(bytes),
    {
        reveal(PublishedFileSubSection::spec_decode);
        lemma_parse_fields_append(bytes, f);
        let fs = parse_fields(bytes).unwrap();
        let apply = Self::apply_fn();
        lemma_fold_concat(Self::spec_default(), fs, seq![f], apply);
        assert(fs.push(f) =~= fs + seq![f]);
        if let Ok(w) = fold_fields(Self::spec_default(), fs, apply) {
            lemma_fold_single(w, f, apply);
        }
        lemma_merge_run_fold(Self::spec_default(), bytes, apply);
        lemma_merge_run_fold(Self::spec_default(), bytes + field_bytes(f), apply);
    }

    /// Decoding the encoding of a message gives the message back.
    pub proof fn lemma_decode_encode(v: SpecPublishedFileSubSection)
        requires
            Self::spec_encode(v).len() <= u64::MAX,
        ensures
            Self::spec_decode(Self::spec_encode(v)) == Ok::<SpecPublishedFileSubSection, WireError>(v),
    {
        let apply = Self::apply_fn();
        let d = Self::spec_default();
        let p0 = Seq::<SpecField>::empty();
        let l1 = opt_u64(1, v.sectionid);
        let p1 = p0 + l1;
        let l2 = opt_string(2, v.title);
        let p2 = p1 + l2;
        let l3 = opt_string(3, v.description_text);
        let p3 = p2 + l3;
        let l4 = opt_u32(4, v.sort_order);
        let p4 = p3 + l4;
        assert(parse_fields(Self::spec_encode(v)) == Ok::<Seq<SpecField>, WireError>(p4)) by {
            reveal(PublishedFileSubSection::spec_encode);
            assert(numbers_ok(p0) && fields_wf(p0)) by {
                reveal(numbers_ok);
                reveal(fields_wf);
            }
            lemma_opt_u64_numbered(1, v.sectionid);
            lemma_fields_wf_concat(p0, l1);
            lemma_opt_string_numbered(2, v.title);
            lemma_fields_wf_concat(p1, l2);
            lemma_opt_string_numbered(3, v.description_text);
            lemma_fields_wf_concat(p2, l3);
            lemma_opt_u32_numbered(4, v.sort_order);
            lemma_fields_wf_concat(p3, l4);
            assert(p4 == Self::spec_fields(v));
            lemma_fields_wf_from_len(p4);
            lemma_fields_roundtrip(p4);
        }
        assert(Self::spec_prefix(v, 0) == d) by {
            reveal(PublishedFileSubSection::spec_prefix);
        }
        lemma_fold_empty(d, apply);
        lemma_fold_concat(d, p0, l1, apply);
        Self::lemma_field_sectionid(v);
        lemma_fold_concat(d, p1, l2, apply);
        Self::lemma_field_title(v);
        lemma_fold_concat(d, p2, l3, apply);
        Self::lemma_field_description_text(v);
        lemma_fold_concat(d, p3, l4, apply);
        Self::lemma_field_sort_order(v);
        assert(Self::spec_prefix(v, 4) == v) by {
            reveal(PublishedFileSubSection::spec_prefix);
        }
        lemma_merge_run_fold(d, Self::spec_encode(v), apply);
        assert(Self::spec_decode(Self::spec_encode(v)) == Ok::<SpecPublishedFileSubSection, WireError>(v)) by {
            reveal(PublishedFileSubSection::spec_decode);
        }
    }
}

/// `CPublishedFile_GetSubSectionData_Response`, as Valve's schema declares it.
#[derive(Debug, Clone, PartialEq)]
pub struct CPublishedFile_GetSubSectionData_Response {
    /// Field 1.
    pub sub_sections: Vec<crate::steammessages_publishedfile_steamclient::PublishedFileSubSection>,
}

/// What a `CPublishedFile_GetSubSectionData_Response` holds, as mathematical values.
#[verifier::ext_equal]
pub struct SpecCPublishedFile_GetSubSectionData_Response {
    pub sub_sections: Seq<crate::steammessages_publishedfile_steamclient::SpecPublishedFileSubSection>,
}

impl View for CPublishedFile_GetSubSectionData_Response {
    type V = SpecCPublishedFile_GetSubSectionData_Response;

    open spec fn view(&self) -> SpecCPublishedFile_GetSubSectionData_Response {
        SpecCPublishedFile_GetSubSectionData_Response {
            sub_sections: crate::steammessages_publishedfile_steamclient::PublishedFileSubSection::view_all(self.sub_sections@),
        }
    }
}

impl Default for CPublishedFile_GetSubSectionData_Response {
    fn default() -> (r: Self)
        ensures
            r@ == CPublishedFile_GetSubSectionData_Response::spec_default(),
    {
        CPublishedFile_GetSubSectionData_Response {
            sub_sections: Vec::new(),
        }
    }
}

impl CPublishedFile_GetSubSectionData_Response {
    pub open spec fn spec_default() -> SpecCPublishedFile_GetSubSectionData_Response {
        SpecCPublishedFile_GetSubSectionData_Response {
            sub_sections: Seq::empty(),
        }
    }

    /// The records a `CPublishedFile_GetSubSectionData_Response` is written as, in field order.
    pub open spec fn spec_fields(v: SpecCPublishedFile_GetSubSectionData_Response) -> Seq<SpecField> {
        Seq::<SpecField>::empty()
            + rep_bytes(1, crate::steammessages_publishedfile_steamclient::PublishedFileSubSection::spec_encode_all(v.sub_sections))
    }

    #[verifier::opaque]
    pub open spec fn spec_encode(v: SpecCPublishedFile_GetSubSectionData_Response) -> Seq<u8> {
        fields_bytes(Self::spec_fields(v))
    }

    /// What one record does to the message: a declared number sets or extends its
    /// field, any other number is left alone.
    pub open spec fn spec_apply(v: SpecCPublishedFile_GetSubSectionData_Response, f: SpecField) -> Result<SpecCPublishedFile_GetSubSectionData_Response, WireError> {
        match f.number {
            1 => match dec_bytes(f.value) {
                Ok(b) => match crate::steammessages_publishedfile_steamclient::PublishedFileSubSection::spec_decode(b) {
                    Ok(m) => Ok(SpecCPublishedFile_GetSubSectionData_Response { sub_sections: v.sub_sections.push(m), ..v }),
                    Err(e) => Err(e),
                },
                Err(e) => Err(e),
            },
            _ => Ok(v),
        }
    }

    pub open spec fn apply_fn() -> spec_fn(SpecCPublishedFile_GetSubSectionData_Response, SpecField) -> Result<SpecCPublishedFile_GetSubSectionData_Response, WireError> {
        |v: SpecCPublishedFile_GetSubSectionData_Response, f: SpecField| Self::spec_apply(v, f)
    }

    /// The message `bytes` makes of `v`: its records applied in order, or the error
    /// that stops the reading.
    pub open spec fn spec_merge(v: SpecCPublishedFile_GetSubSectionData_Response, bytes: Seq<u8>) -> Result<SpecCPublishedFile_GetSubSectionData_Response, WireError> {
        let (w, stop) = merge_run(v, bytes, Self::apply_fn());
        match stop {
            None => Ok(w),
            Some(e) => Err(e),
        }
    }

    #[verifier::opaque]
    pub open spec fn spec_decode(bytes: Seq<u8>) -> Result<SpecCPublishedFile_GetSubSectionData_Response, WireError> {
        Self::spec_merge(Self::spec_default(), bytes)
    }

    /// This message with one record applied to it, or, when the record is refused,
    /// the message unchanged and the reason.
    fn applied(self, f: &Field) -> (r: Result<Self, (Self, WireError)>)
        ensures
            match Self::spec_apply(self@, f@) {
                Ok(v) => r matches Ok(m) && m@ == v,
                Err(e) => r matches Err((m, x)) && x == e && m@ == self@,
            },
    {
        match f.number {
            1 => match read_payload(&f.value) {
                Ok(b) => match crate::steammessages_publishedfile_steamclient::PublishedFileSubSection::decode(b) {
                    Ok(x) => {
                        let mut m = self;
                        let ghost before = m.sub_sections@;
                        m.sub_sections.push(x);
                        assert(crate::steammessages_publishedfile_steamclient::PublishedFileSubSection::view_all(m.sub_sections@) =~= crate::steammessages_publishedfile_steamclient::PublishedFileSubSection::view_all(before).push(x@));
                        Ok(m)
                    },
                    Err(e) => Err((self, e)),
                },
                Err(e) => Err((self, e)),
            },
            _ => Ok(self),
        }
    }

    /// Reads the records `bytes` holds into this message, in order. When a record does
    /// not parse or is refused, the reading stops there: the message keeps what the
    /// records before it gave, and the error is returned.
    pub fn merge(&mut self, bytes: &[u8]) -> (r: Result<(), WireError>)
        ensures
            final(self)@ == merge_run(old(self)@, bytes@, Self::apply_fn()).0,
            r == match merge_run(old(self)@, bytes@, Self::apply_fn()).1 {
                None => Ok::<(), WireError>(()),
                Some(e) => Err::<(), WireError>(e),
            },
    {
        let ghost total = merge_run(self@, bytes@, Self::apply_fn());
        let mut cur = Self::default();
        std::mem::swap(&mut cur, self);
        let mut pos: usize = 0;
        assert(bytes@.skip(0) =~= bytes@);
        while pos < bytes.len()
            invariant
                pos <= bytes@.len(),
                total == merge_run(old(self)@, bytes@, Self::apply_fn()),
                merge_run(cur@, bytes@.skip(pos as int), Self::apply_fn()) == total,
            decreases bytes@.len() - pos,
        {
            let ghost s = bytes@.skip(pos as int);
            proof {
                lemma_merge_run_step(cur@, s, Self::apply_fn());
                lemma_parse_field_len(s);
            }
            match read_field(bytes, pos) {
                Ok((f, end)) => {
                    assert(bytes@.skip(end as int) =~= s.skip((end - pos) as int));
                    match cur.applied(&f) {
                        Ok(m) => {
                            cur = m;
                        },
                        Err((m, e)) => {
                            *self = m;
                            return Err(e);
                        },
                    }
                    pos = end;
                },
                Err(e) => {
                    *self = cur;
                    return Err(e);
                },
            }
        }
        assert(bytes@.skip(pos as int) =~= Seq::<u8>::empty());
        proof {
            lemma_merge_run_empty(cur@, Self::apply_fn());
        }
        *self = cur;
        Ok(())
    }

    /// Decodes a message from its encoding.
    pub fn decode(bytes: &[u8]) -> (r: Result<Self, WireError>)
        ensures
            match Self::spec_decode(bytes@) {
                Ok(v) => r matches Ok(m) && m@ == v,
                Err(e) => r matches Err(x) && x == e,
            },
    {
        proof {
            reveal(CPublishedFile_GetSubSectionData_Response::spec_decode);
        }
        let mut m = Self::default();
        match m.merge(bytes) {
            Ok(()) => Ok(m),
            Err(e) => Err(e),
        }
    }

    /// The encoding of this message.
    pub fn encode_to_vec(&self) -> (r: Vec<u8>)
        ensures
            r@ == Self::spec_encode(self@),
    {
        let enc_sub_sections = crate::steammessages_publishedfile_steamclient::PublishedFileSubSection::encode_all(&self.sub_sections);
        let ghost v = self@;
        let mut out: Vec<u8> = Vec::new();
        let ghost p0 = Seq::<SpecField>::empty();
        put_rep_bytes(&mut out, 1, &enc_sub_sections);
        let ghost p1 = p0 + rep_bytes(1, crate::steammessages_publishedfile_steamclient::PublishedFileSubSection::spec_encode_all(v.sub_sections));
        proof {
            lemma_fields_bytes_concat(p0, rep_bytes(1, crate::steammessages_publishedfile_steamclient::PublishedFileSubSection::spec_encode_all(v.sub_sections)));
        }
        proof {
            reveal(CPublishedFile_GetSubSectionData_Response::spec_encode);
        }
        assert(p1 == Self::spec_fields(v));
        out
    }

    /// Appends the encoding of this message to `out`.
    pub fn encode_raw(&self, out: &mut Vec<u8>)
        ensures
            final(out)@ == old(out)@ + Self::spec_encode(self@),
    {
        let mut b = self.encode_to_vec();
        out.append(&mut b);
    }

    /// The first `k` fields of `v`, the others as a fresh message has them.
    #[verifier::opaque]
    pub open spec fn spec_prefix(v: SpecCPublishedFile_GetSubSectionData_Response, k: int) -> SpecCPublishedFile_GetSubSectionData_Response {
        SpecCPublishedFile_GetSubSectionData_Response {
            sub_sections: if 1 <= k { v.sub_sections } else { Seq::empty() },
        }
    }

    /// Reading field 1 back, after the fields before it.
    proof fn lemma_field_sub_sections(v: SpecCPublishedFile_GetSubSectionData_Response)
        requires
            fields_wf(rep_bytes(1, crate::steammessages_publishedfile_steamclient::PublishedFileSubSection::spec_encode_all(v.sub_sections))),
        ensures
            fold_fields(Self::spec_prefix(v, 0), rep_bytes(1, crate::steammessages_publishedfile_steamclient::PublishedFileSubSection::spec_encode_all(v.sub_sections)), Self::apply_fn())
                == Ok::<SpecCPublishedFile_GetSubSectionData_Response, WireError>(Self::spec_prefix(v, 1)),
    {
        reveal(CPublishedFile_GetSubSectionData_Response::spec_prefix);
        reveal(rep_bytes);
        reveal(fields_wf);
        let apply = Self::apply_fn();
        let s = Self::spec_prefix(v, 0);
        let l = rep_bytes(1, crate::steammessages_publishedfile_steamclient::PublishedFileSubSection::spec_encode_all(v.sub_sections));
        let xs = v.sub_sections;
        let st = Seq::new((xs.len() + 1) as nat, |j: int| SpecCPublishedFile_GetSubSectionData_Response { sub_sections: xs.take(j), ..s });
        assert forall|j: int| 0 <= j < l.len() implies #[trigger] apply(st[j], l[j]) == Ok::<SpecCPublishedFile_GetSubSectionData_Response, WireError>(st[j + 1]) by {
            assert(field_wf(l[j]));
            crate::steammessages_publishedfile_steamclient::PublishedFileSubSection::lemma_decode_encode(xs[j]);
            assert(xs.take(j).push(xs[j]) =~= xs.take(j + 1));
        }
        lemma_fold_chain(l, st, apply);
        assert(xs.take(0) =~= Seq::<crate::steammessages_publishedfile_steamclient::SpecPublishedFileSubSection>::empty());
        assert(xs.take(xs.len() as int) =~= xs);
        assert(st[0] == s);
        assert(st[xs.len() as int] == Self::spec_prefix(v, 1));
    }

    /// Whether this message declares field number `n`.
    pub open spec fn declares(n: u32) -> bool {
        n == 1
    }

    /// A record with a number this message does not declare is passed over: well-formed
    /// bytes decode to the same message with such a record after them as without it.
    pub proof fn lemma_unknown_field(bytes: Seq<u8>, f: SpecField)
        requires
            parse_fields(bytes) is Ok,
            field_wf(f),
            !Self::declares(f.number),
        ensures
            Self::spec_decode(bytes + field_bytes(f)) == Self::spec_decode(bytes),
    {
        reveal(CPublishedFile_GetSubSectionData_Response::spec_decode);
        lemma_parse_fields_append(bytes, f);
        let fs = parse_fields(bytes).unwrap();
        let apply = Self::apply_fn();
        lemma_fold_concat(Self::spec_default(), fs, seq![f], apply);
        assert(fs.push(f) =~= fs + seq![f]);
        if let Ok(w) = fold_fields(Self::spec_default(), fs, apply) {
            lemma_fold_single(w, f, apply);
        }
        lemma_merge_run_fold(Self::spec_default(), bytes, apply);
        lemma_merge_run_fold(Self::spec_default(), bytes + field_bytes(f), apply);
    }

    /// Decoding the encoding of a message gives the message back.
    pub proof fn lemma_decode_encode(v: SpecCPublishedFile_GetSubSectionData_Response)
        requires
            Self::spec_encode(v).len() <= u64::MAX,
        ensures
            Self::spec_decode(Self::spec_encode(v)) == Ok::<SpecCPublishedFile_GetSubSectionData_Response, WireError>(v),
    {
        let apply = Self::apply_fn();
        let d = Self::spec_default();
        let p0 = Seq::<SpecField>::empty();
        let l1 = rep_bytes(1, crate::steammessages_publishedfile_steamclient::PublishedFileSubSection::spec_encode_all(v.sub_sections));
        let p1 = p0 + l1;
        assert(parse_fields(Self::spec_encode(v)) == Ok::<Seq<SpecField>, WireError>(p1) && fields_wf(l1)) by {
            reveal(CPublishedFile_GetSubSectionData_Response::spec_encode);
            assert(numbers_ok(p0) && fields_wf(p0)) by {
                reveal(numbers_ok);
                reveal(fields_wf);
            }
            lemma_rep_bytes_numbered(1, crate::steammessages_publishedfile_steamclient::PublishedFileSubSection::spec_encode_all(v.sub_sections));
            lemma_fields_wf_concat(p0, l1);
            assert(p1 == Self::spec_fields(v));
            lemma_fields_wf_from_len(p1);
            lemma_fields_roundtrip(p1);
        }
        assert(Self::spec_prefix(v, 0) == d) by {
            reveal(CPublishedFile_GetSubSectionData_Response::spec_prefix);
        }
        lemma_fold_empty(d, apply);
        lemma_fold_concat(d, p0, l1, apply);
        Self::lemma_field_sub_sections(v);
        assert(Self::spec_prefix(v, 1) == v) by {
            reveal(CPublishedFile_GetSubSectionData_Response::spec_prefix);
        }
        lemma_merge_run_fold(d, Self::spec_encode(v), apply);
        assert(Self::spec_decode(Self::spec_encode(v)) == Ok::<SpecCPublishedFile_GetSubSectionData_Response, WireError>(v)) by {
            reveal(CPublishedFile_GetSubSectionData_Response::spec_decode);
        }
    }
}

/// `CPublishedFile_Publish_Request`, as Valve's schema declares it.
#[derive(Debug, Clone, PartialEq)]
pub struct CPublishedFile_Publish_Request {
    /// Field 1.
    pub appid: Option<u32>,
    /// Field 2.
    pub consumer_appid: Option<u32>,
    /// Field 3.
    pub cloudfilename: Option<String>,
    /// Field 4.
    pub preview_cloudfilename: Option<String>,
    /// Field 5.
    pub title: Option<String>,
    /// Field 6.
    pub file_description: Option<String>,
    /// Field 7.
    pub file_type: Option<u32>,
    /// Field 8.
    pub consumer_shortcut_name: Option<String>,
    /// Field 9.
    pub youtube_username: Option<String>,
    /// Field 10.
    pub youtube_videoid: Option<String>,
    /// Field 11.
    pub visibility: Option<u32>,
    /// Field 12.
    pub redirect_uri: Option<String>,
    /// Field 13.
    pub tags: Vec<String>,
    /// Field 14.
    pub collection_type: Option<String>,
    /// Field 15.
    pub game_type: Option<String>,
    /// Field 16.
    pub url: Option<String>,
}

/// What a `CPublishedFile_Publish_Request` holds, as mathematical values.
#[verifier::ext_equal]
pub struct SpecCPublishedFile_Publish_Request {
    pub appid: Option<u32>,
    pub consumer_appid: Option<u32>,
    pub cloudfilename: Option<Seq<char>>,
    pub preview_cloudfilename: Option<Seq<char>>,
    pub title: Option<Seq<char>>,
    pub file_description: Option<Seq<char>>,
    pub file_type: Option<u32>,
    pub consumer_shortcut_name: Option<Seq<char>>,
    pub youtube_username: Option<Seq<char>>,
    pub youtube_videoid: Option<Seq<char>>,
    pub visibility: Option<u32>,
    pub redirect_uri: Option<Seq<char>>,
    pub tags: Seq<Seq<char>>,
    pub collection_type: Option<Seq<char>>,
    pub game_type: Option<Seq<char>>,
    pub url: Option<Seq<char>>,
}

impl View for CPublishedFile_Publish_Request {
    type V = SpecCPublishedFile_Publish_Request;

    open spec fn view(&self) -> SpecCPublishedFile_Publish_Request {
        SpecCPublishedFile_Publish_Request {
            appid: self.appid,
            consumer_appid: self.consumer_appid,
            cloudfilename: opt_string_view(self.cloudfilename),
            preview_cloudfilename: opt_string_view(self.preview_cloudfilename),
            title: opt_string_view(self.title),
            file_description: opt_string_view(self.file_description),
            file_type: self.file_type,
            consumer_shortcut_name: opt_string_view(self.consumer_shortcut_name),
            youtube_username: opt_string_view(self.youtube_username),
            youtube_videoid: opt_string_view(self.youtube_videoid),
            visibility: self.visibility,
            redirect_uri: opt_string_view(self.redirect_uri),
            tags: strings_view(self.tags@),
            collection_type: opt_string_view(self.collection_type),
            game_type: opt_string_view(self.game_type),
            url: opt_string_view(self.url),
        }
    }
}

impl Default for CPublishedFile_Publish_Request {
    fn default() -> (r: Self)
        ensures
            r@ == CPublishedFile_Publish_Request::spec_default(),
    {
        CPublishedFile_Publish_Request {
            appid: None,
            consumer_appid: None,
            cloudfilename: None,
            preview_cloudfilename: None,
            title: None,
            file_description: None,
            file_type: None,
            consumer_shortcut_name: None,
            youtube_username: None,
            youtube_videoid: None,
            visibility: None,
            redirect_uri: None,
            tags: Vec::new(),
            collection_type: None,
            game_type: None,
            url: None,
        }
    }
}

impl CPublishedFile_Publish_Request {
    pub open spec fn spec_default() -> SpecCPublishedFile_Publish_Request {
        SpecCPublishedFile_Publish_Request {
            appid: None,
            consumer_appid: None,
            cloudfilename: None,
            preview_cloudfilename: None,
            title: None,
            file_description: None,
            file_type: None,
            consumer_shortcut_name: None,
            youtube_username: None,
            youtube_videoid: None,
            visibility: None,
            redirect_uri: None,
            tags: Seq::empty(),
            collection_type: None,
            game_type: None,
            url: None,
        }
    }

    /// The records a `CPublishedFile_Publish_Request` is written as, in field order.
    pub open spec fn spec_fields(v: SpecCPublishedFile_Publish_Request) -> Seq<SpecField> {
        Seq::<SpecField>::empty()
            + opt_u32(1, v.appid)
            + opt_u32(2, v.consumer_appid)
            + opt_string(3, v.cloudfilename)
            + opt_string(4, v.preview_cloudfilename)
            + opt_string(5, v.title)
            + opt_string(6, v.file_description)
            + opt_u32(7, v.file_type)
            + opt_string(8, v.consumer_shortcut_name)
            + opt_string(9, v.youtube_username)
            + opt_string(10, v.youtube_videoid)
            + opt_u32(11, v.visibility)
            + opt_string(12, v.redirect_uri)
            + rep_string(13, v.tags)
            + opt_string(14, v.collection_type)
            + opt_string(15, v.game_type)
            + opt_string(16, v.url)
    }

    #[verifier::opaque]
    pub open spec fn spec_encode(v: SpecCPublishedFile_Publish_Request) -> Seq<u8> {
        fields_bytes(Self::spec_fields(v))
    }

    /// What one record does to the message: a declared number sets or extends its
    /// field, any other number is left alone.
    pub open spec fn spec_apply(v: SpecCPublishedFile_Publish_Request, f: SpecField) -> Result<SpecCPublishedFile_Publish_Request, WireError> {
        match f.number {
            1 => match dec_u32(f.value) {
                Ok(x) => Ok(SpecCPublishedFile_Publish_Request { appid: Some(x), ..v }),
                Err(e) => Err(e),
            },
            2 => match dec_u32(f.value) {
                Ok(x) => Ok(SpecCPublishedFile_Publish_Request { consumer_appid: Some(x), ..v }),
                Err(e) => Err(e),
            },
            3 => match dec_string(f.value) {
                Ok(x) => Ok(SpecCPublishedFile_Publish_Request { cloudfilename: Some(x), ..v }),
                Err(e) => Err(e),
            },
            4 => match dec_string(f.value) {
                Ok(x) => Ok(SpecCPublishedFile_Publish_Request { preview_cloudfilename: Some(x), ..v }),
                Err(e) => Err(e),
            },
            5 => match dec_string(f.value) {
                Ok(x) => Ok(SpecCPublishedFile_Publish_Request { title: Some(x), ..v }),
                Err(e) => Err(e),
            },
            6 => match dec_string(f.value) {
                Ok(x) => Ok(SpecCPublishedFile_Publish_Request { file_description: Some(x), ..v }),
                Err(e) => Err(e),
            },
            7 => match dec_u32(f.value) {
                Ok(x) => Ok(SpecCPublishedFile_Publish_Request { file_type: Some(x), ..v }),
                Err(e) => Err(e),
            },
            8 => match dec_string(f.value) {
                Ok(x) => Ok(SpecCPublishedFile_Publish_Request { consumer_shortcut_name: Some(x), ..v }),
                Err(e) => Err(e),
            },
            9 => match dec_string(f.value) {
                Ok(x) => Ok(SpecCPublishedFile_Publish_Request { youtube_username: Some(x), ..v }),
                Err(e) => Err(e),
            },
            10 => match dec_string(f.value) {
                Ok(x) => Ok(SpecCPublishedFile_Publish_Request { youtube_videoid: Some(x), ..v }),
                Err(e) => Err(e),
            },
            11 => match dec_u32(f.value) {
                Ok(x) => Ok(SpecCPublishedFile_Publish_Request { visibility: Some(x), ..v }),
                Err(e) => Err(e),
            },
            12 => match dec_string(f.value) {
                Ok(x) => Ok(SpecCPublishedFile_Publish_Request { redirect_uri: Some(x), ..v }),
                Err(e) => Err(e),
            },
            13 => match dec_string(f.value) {
                Ok(x) => Ok(SpecCPublishedFile_Publish_Request { tags: v.tags.push(x), ..v }),
                Err(e) => Err(e),
            },
            14 => match dec_string(f.value) {
                Ok(x) => Ok(SpecCPublishedFile_Publish_Request { collection_type: Some(x), ..v }),
                Err(e) => Err(e),
            },
            15 => match dec_string(f.value) {
                Ok(x) => Ok(SpecCPublishedFile_Publish_Request { game_type: Some(x), ..v }),
                Err(e) => Err(e),
            },
            16 => match dec_string(f.value) {
                Ok(x) => Ok(SpecCPublishedFile_Publish_Request { url: Some(x), ..v }),
                Err(e) => Err(e),
            },
            _ => Ok(v),
        }
    }

    pub open spec fn apply_fn() -> spec_fn(SpecCPublishedFile_Publish_Request, SpecField) -> Result<SpecCPublishedFile_Publish_Request, WireError> {
        |v: SpecCPublishedFile_Publish_Request, f: SpecField| Self::spec_apply(v, f)
    }

    /// The message `bytes` makes of `v`: its records applied in order, or the error
    /// that stops the reading.
    pub open spec fn spec_merge(v: SpecCPublishedFile_Publish_Request, bytes: Seq<u8>) -> Result<SpecCPublishedFile_Publish_Request, WireError> {
        let (w, stop) = merge_run(v, bytes, Self::apply_fn());
        match stop {
            None => Ok(w),
            Some(e) => Err(e),
        }
    }

    #[verifier::opaque]
    pub open spec fn spec_decode(bytes: Seq<u8>) -> Result<SpecCPublishedFile_Publish_Request, WireError> {
        Self::spec_merge(Self::spec_default(), bytes)
    }

    /// This message with one record applied to it, or, when the record is refused,
    /// the message unchanged and the reason.
    fn applied(self, f: &Field) -> (r: Result<Self, (Self, WireError)>)
        ensures
            match Self::spec_apply(self@, f@) {
                Ok(v) => r matches Ok(m) && m@ == v,
                Err(e) => r matches Err((m, x)) && x == e && m@ == self@,
            },
    {
        if f.number <= 6 {
            self.applied_0(f)
        } else if f.number <= 12 {
            self.applied_1(f)
        } else {
            self.applied_2(f)
        }
    }

    /// `applied`, for the records numbered up to 6.
    fn applied_0(self, f: &Field) -> (r: Result<Self, (Self, WireError)>)
        requires
            f.number <= 6,
        ensures
            match Self::spec_apply(self@, f@) {
                Ok(v) => r matches Ok(m) && m@ == v,
                Err(e) => r matches Err((m, x)) && x == e && m@ == self@,
            },
    {
        match f.number {
            1 => match read_u32(&f.value) {
                Ok(x) => Ok(Self { appid: Some(x), ..self }),
                Err(e) => Err((self, e)),
            },
            2 => match read_u32(&f.value) {
                Ok(x) => Ok(Self { consumer_appid: Some(x), ..self }),
                Err(e) => Err((self, e)),
            },
            3 => match read_string(&f.value) {
                Ok(x) => Ok(Self { cloudfilename: Some(x), ..self }),
                Err(e) => Err((self, e)),
            },
            4 => match read_string(&f.value) {
                Ok(x) => Ok(Self { preview_cloudfilename: Some(x), ..self }),
                Err(e) => Err((self, e)),
            },
            5 => match read_string(&f.value) {
                Ok(x) => Ok(Self { title: Some(x), ..self }),
                Err(e) => Err((self, e)),
            },
            6 => match read_string(&f.value) {
                Ok(x) => Ok(Self { file_description: Some(x), ..self }),
                Err(e) => Err((self, e)),
            },
            _ => Ok(self),
        }
    }

    /// `applied`, for the records numbered from 7 to 12.
    fn applied_1(self, f: &Field) -> (r: Result<Self, (Self, WireError)>)
        requires
            6 < f.number,
            f.number <= 12,
        ensures
            match Self::spec_apply(self@, f@) {
                Ok(v) => r matches Ok(m) && m@ == v,
                Err(e) => r matches Err((m, x)) && x == e && m@ == self@,
            },
    {
        match f.number {
            7 => match read_u32(&f.value) {
                Ok(x) => Ok(Self { file_type: Some(x), ..self }),
                Err(e) => Err((self, e)),
            },
            8 => match read_string(&f.value) {
                Ok(x) => Ok(Self { consumer_shortcut_name: Some(x), ..self }),
                Err(e) => Err((self, e)),
            },
            9 => match read_string(&f.value) {
                Ok(x) => Ok(Self { youtube_username: Some(x), ..self }),
                Err(e) => Err((self, e)),
            },
            10 => match read_string(&f.value) {
                Ok(x) => Ok(Self { youtube_videoid: Some(x), ..self }),
                Err(e) => Err((self, e)),
            },
            11 => match read_u32(&f.value) {
                Ok(x) => Ok(Self { visibility: Some(x), ..self }),
                Err(e) => Err((self, e)),
            },
            12 => match read_string(&f.value) {
                Ok(x) => Ok(Self { redirect_uri: Some(x), ..self }),
                Err(e) => Err((self, e)),
            },
            _ => Ok(self),
        }
    }

    /// `applied`, for the records numbered above 12.
    fn applied_2(self, f: &Field) -> (r: Result<Self, (Self, WireError)>)
        requires
            12 < f.number,
        ensures
            match Self::spec_apply(self@, f@) {
                Ok(v) => r matches Ok(m) && m@ == v,
                Err(e) => r matches Err((m, x)) && x == e && m@ == self@,
            },
    {
        match f.number {
            13 => match read_string(&f.value) {
                Ok(x) => {
                    let mut m = self;
                    let ghost before = m.tags@;
                    m.tags.push(x);
                    assert(strings_view(m.tags@) =~= strings_view(before).push(x@));
                    Ok(m)
                },
                Err(e) => Err((self, e)),
            },
            14 => match read_string(&f.value) {
                Ok(x) => Ok(Self { collection_type: Some(x), ..self }),
                Err(e) => Err((self, e)),
            },
            15 => match read_string(&f.value) {
                Ok(x) => Ok(Self { game_type: Some(x), ..self }),
                Err(e) => Err((self, e)),
            },
            16 => match read_string(&f.value) {
                Ok(x) => Ok(Self { url: Some(x), ..self }),
                Err(e) => Err((self, e)),
            },
            _ => Ok(self),
        }
    }

    /// Reads the records `bytes` holds into this message, in order. When a record does
    /// not parse or is refused, the reading stops there: the message keeps what the
    /// records before it gave, and the error is returned.
    pub fn merge(&mut self, bytes: &[u8]) -> (r: Result<(), WireError>)
        ensures
            final(self)@ == merge_run(old(self)@, bytes@, Self::apply_fn()).0,
            r == match merge_run(old(self)@, bytes@, Self::apply_fn()).1 {
                None => Ok::<(), WireError>(()),
                Some(e) => Err::<(), WireError>(e),
            },
    {
        let ghost total = merge_run(self@, bytes@, Self::apply_fn());
        let mut cur = Self::default();
        std::mem::swap(&mut cur, self);
        let mut pos: usize = 0;
        assert(bytes@.skip(0) =~= bytes@);
        while pos < bytes.len()
            invariant
                pos <= bytes@.len(),
                total == merge_run(old(self)@, bytes@, Self::apply_fn()),
                merge_run(cur@, bytes@.skip(pos as int), Self::apply_fn()) == total,
            decreases bytes@.len() - pos,
        {
            let ghost s = bytes@.skip(pos as int);
            proof {
                lemma_merge_run_step(cur@, s, Self::apply_fn());
                lemma_parse_field_len(s);
            }
            match read_field(bytes, pos) {
                Ok((f, end)) => {
                    assert(bytes@.skip(end as int) =~= s.skip((end - pos) as int));
                    match cur.applied(&f) {
                        Ok(m) => {
                            cur = m;
                        },
                        Err((m, e)) => {
                            *self = m;
                            return Err(e);
                        },
                    }
                    pos = end;
                },
                Err(e) => {
                    *self = cur;
                    return Err(e);
                },
            }
        }
        assert(bytes@.skip(pos as int) =~= Seq::<u8>::empty());
        proof {
            lemma_merge_run_empty(cur@, Self::apply_fn());
        }
        *self = cur;
        Ok(())
    }

    /// Decodes a message from its encoding.
    pub fn decode(bytes: &[u8]) -> (r: Result<Self, WireError>)
        ensures
            match Self::spec_decode(bytes@) {
                Ok(v) => r matches Ok(m) && m@ == v,
                Err(e) => r matches Err(x) && x == e,
            },
    {
        proof {
            reveal(CPublishedFile_Publish_Request::spec_decode);
        }
        let mut m = Self::default();
        match m.merge(bytes) {
            Ok(()) => Ok(m),
            Err(e) => Err(e),
        }
    }

    /// The encoding of this message.
    pub fn encode_to_vec(&self) -> (r: Vec<u8>)
        ensures
            r@ == Self::spec_encode(self@),
    {
        let ghost v = self@;
        let mut out: Vec<u8> = Vec::new();
        let ghost p0 = Seq::<SpecField>::empty();
        put_opt_u32(&mut out, 1, self.appid);
        let ghost p1 = p0 + opt_u32(1, v.appid);
        proof {
            lemma_fields_bytes_concat(p0, opt_u32(1, v.appid));
        }
        put_opt_u32(&mut out, 2, self.consumer_appid);
        let ghost p2 = p1 + opt_u32(2, v.consumer_appid);
        proof {
            lemma_fields_bytes_concat(p1, opt_u32(2, v.consumer_appid));
        }
        put_opt_string(&mut out, 3, &self.cloudfilename);
        let ghost p3 = p2 + opt_string(3, v.cloudfilename);
        proof {
            lemma_fields_bytes_concat(p2, opt_string(3, v.cloudfilename));
        }
        put_opt_string(&mut out, 4, &self.preview_cloudfilename);
        let ghost p4 = p3 + opt_string(4, v.preview_cloudfilename);
        proof {
            lemma_fields_bytes_concat(p3, opt_string(4, v.preview_cloudfilename));
        }
        put_opt_string(&mut out, 5, &self.title);
        let ghost p5 = p4 + opt_string(5, v.title);
        proof {
            lemma_fields_bytes_concat(p4, opt_string(5, v.title));
        }
        put_opt_string(&mut out, 6, &self.file_description);
        let ghost p6 = p5 + opt_string(6, v.file_description);
        proof {
            lemma_fields_bytes_concat(p5, opt_string(6, v.file_description));
        }
        put_opt_u32(&mut out, 7, self.file_type);
        let ghost p7 = p6 + opt_u32(7, v.file_type);
        proof {
            lemma_fields_bytes_concat(p6, opt_u32(7, v.file_type));
        }
        put_opt_string(&mut out, 8, &self.consumer_shortcut_name);
        let ghost p8 = p7 + opt_string(8, v.consumer_shortcut_name);
        proof {
            lemma_fields_bytes_concat(p7, opt_string(8, v.consumer_shortcut_name));
        }
        put_opt_string(&mut out, 9, &self.youtube_username);
        let ghost p9 = p8 + opt_string(9, v.youtube_username);
        proof {
            lemma_fields_bytes_concat(p8, opt_string(9, v.youtube_username));
        }
        put_opt_string(&mut out, 10, &self.youtube_videoid);
        let ghost p10 = p9 + opt_string(10, v.youtube_videoid);
        proof {
            lemma_fields_bytes_concat(p9, opt_string(10, v.youtube_videoid));
        }
        put_opt_u32(&mut out, 11, self.visibility);
        let ghost p11 = p10 + opt_u32(11, v.visibility);
        proof {
            lemma_fields_bytes_concat(p10, opt_u32(11, v.visibility));
        }
        put_opt_string(&mut out, 12, &self.redirect_uri);
        let ghost p12 = p11 + opt_string(12, v.redirect_uri);
        proof {
            lemma_fields_bytes_concat(p11, opt_string(12, v.redirect_uri));
        }
        put_rep_string(&mut out, 13, &self.tags);
        let ghost p13 = p12 + rep_string(13, v.tags);
        proof {
            lemma_fields_bytes_concat(p12, rep_string(13, v.tags));
        }
        put_opt_string(&mut out, 14, &self.collection_type);
        let ghost p14 = p13 + opt_string(14, v.collection_type);
        proof {
            lemma_fields_bytes_concat(p13, opt_string(14, v.collection_type));
        }
        put_opt_string(&mut out, 15, &self.game_type);
        let ghost p15 = p14 + opt_string(15, v.game_type);
        proof {
            lemma_fields_bytes_concat(p14, opt_string(15, v.game_type));
        }
        put_opt_string(&mut out, 16, &self.url);
        let ghost p16 = p15 + opt_string(16, v.url);
        proof {
            lemma_fields_bytes_concat(p15, opt_string(16, v.url));
        }
        proof {
            reveal(CPublishedFile_Publish_Request::spec_encode);
        }
        assert(p16 == Self::spec_fields(v));
        out
    }

    /// Appends the encoding of this message to `out`.
    pub fn encode_raw(&self, out: &mut Vec<u8>)
        ensures
            final(out)@ == old(out)@ + Self::spec_encode(self@),
    {
        let mut b = self.encode_to_vec();
        out.append(&mut b);
    }

    /// The first `k` fields of `v`, the others as a fresh message has them.
    #[verifier::opaque]
    pub open spec fn spec_prefix(v: SpecCPublishedFile_Publish_Request, k: int) -> SpecCPublishedFile_Publish_Request {
        SpecCPublishedFile_Publish_Request {
            appid: if 1 <= k { v.appid } else { None },
            consumer_appid: if 2 <= k { v.consumer_appid } else { None },
            cloudfilename: if 3 <= k { v.cloudfilename } else { None },
            preview_cloudfilename: if 4 <= k { v.preview_cloudfilename } else { None },
            title: if 5 <= k { v.title } else { None },
            file_description: if 6 <= k { v.file_description } else { None },
            file_type: if 7 <= k { v.file_type } else { None },
            consumer_shortcut_name: if 8 <= k { v.consumer_shortcut_name } else { None },
            youtube_username: if 9 <= k { v.youtube_username } else { None },
            youtube_videoid: if 10 <= k { v.youtube_videoid } else { None },
            visibility: if 11 <= k { v.visibility } else { None },
            redirect_uri: if 12 <= k { v.redirect_uri } else { None },
            tags: if 13 <= k { v.tags } else { Seq::empty() },
            collection_type: if 14 <= k { v.collection_type } else { None },
            game_type: if 15 <= k { v.game_type } else { None },
            url: if 16 <= k { v.url } else { None },
        }
    }

    /// Reading field 1 back, after the fields before it.
    proof fn lemma_field_appid(v: SpecCPublishedFile_Publish_Request)
        ensures
            fold_fields(Self::spec_prefix(v, 0), opt_u32(1, v.appid), Self::apply_fn())
                == Ok::<SpecCPublishedFile_Publish_Request, WireError>(Self::spec_prefix(v, 1)),
    {
        reveal(CPublishedFile_Publish_Request::spec_prefix);
        reveal(opt_u32);
        let apply = Self::apply_fn();
        let s = Self::spec_prefix(v, 0);
        lemma_fold_opt(s, 1, match v.appid { Some(x) => Some(enc_u32(x)), None => None }, apply);
        if let Some(x) = v.appid {
            lemma_u32_roundtrip(x);
        }
        assert(SpecCPublishedFile_Publish_Request { appid: v.appid, ..s } == Self::spec_prefix(v, 1));
    }

    /// Reading field 2 back, after the fields before it.
    proof fn lemma_field_consumer_appid(v: SpecCPublishedFile_Publish_Request)
        ensures
            fold_fields(Self::spec_prefix(v, 1), opt_u32(2, v.consumer_appid), Self::apply_fn())
                == Ok::<SpecCPublishedFile_Publish_Request, WireError>(Self::spec_prefix(v, 2)),
    {
        reveal(CPublishedFile_Publish_Request::spec_prefix);
        reveal(opt_u32);
        let apply = Self::apply_fn();
        let s = Self::spec_prefix(v, 1);
        lemma_fold_opt(s, 2, match v.consumer_appid { Some(x) => Some(enc_u32(x)), None => None }, apply);
        if let Some(x) = v.consumer_appid {
            lemma_u32_roundtrip(x);
        }
        assert(SpecCPublishedFile_Publish_Request { consumer_appid: v.consumer_appid, ..s } == Self::spec_prefix(v, 2));
    }

    /// Reading field 3 back, after the fields before it.
    proof fn lemma_field_cloudfilename(v: SpecCPublishedFile_Publish_Request)
        ensures
            fold_fields(Self::spec_prefix(v, 2), opt_string(3, v.cloudfilename), Self::apply_fn())
                == Ok::<SpecCPublishedFile_Publish_Request, WireError>(Self::spec_prefix(v, 3)),
    {
        reveal(CPublishedFile_Publish_Request::spec_prefix);
        reveal(opt_string);
        let apply = Self::apply_fn();
        let s = Self::spec_prefix(v, 2);
        lemma_fold_opt(s, 3, match v.cloudfilename { Some(x) => Some(enc_string(x)), None => None }, apply);
        if let Some(x) = v.cloudfilename {
            lemma_string_roundtrip(x);
        }
        assert(SpecCPublishedFile_Publish_Request { cloudfilename: v.cloudfilename, ..s } == Self::spec_prefix(v, 3));
    }

    /// Reading field 4 back, after the fields before it.
    proof fn lemma_field_preview_cloudfilename(v: SpecCPublishedFile_Publish_Request)
        ensures
            fold_fields(Self::spec_prefix(v, 3), opt_string(4, v.preview_cloudfilename), Self::apply_fn())
                == Ok::<SpecCPublishedFile_Publish_Request, WireError>(Self::spec_prefix(v, 4)),
    {
        reveal(CPublishedFile_Publish_Request::spec_prefix);
        reveal(opt_string);
        let apply = Self::apply_fn();
        let s = Self::spec_prefix(v, 3);
        lemma_fold_opt(s, 4, match v.preview_cloudfilename { Some(x) => Some(enc_string(x)), None => None }, apply);
        if let Some(x) = v.preview_cloudfilename {
            lemma_string_roundtrip(x);
        }
        assert(SpecCPublishedFile_Publish_Request { preview_cloudfilename: v.preview_cloudfilename, ..s } == Self::spec_prefix(v, 4));
    }

    /// Reading field 5 back, after the fields before it.
    proof fn lemma_field_title(v: SpecCPublishedFile_Publish_Request)
        ensures
            fold_fields(Self::spec_prefix(v, 4), opt_string(5, v.title), Self::apply_fn())
                == Ok::<SpecCPublishedFile_Publish_Request, WireError>(Self::spec_prefix(v, 5)),
    {
        reveal(CPublishedFile_Publish_Request::spec_prefix);
        reveal(opt_string);
        let apply = Self::apply_fn();
        let s = Self::spec_prefix(v, 4);
        lemma_fold_opt(s, 5, match v.title { Some(x) => Some(enc_string(x)), None => None }, apply);
        if let Some(x) = v.title {
            lemma_string_roundtrip(x);
        }
        assert(SpecCPublishedFile_Publish_Request { title: v.title, ..s } == Self::spec_prefix(v, 5));
    }

    /// Reading field 6 back, after the fields before it.
    proof fn lemma_field_file_description(v: SpecCPublishedFile_Publish_Request)
        ensures
            fold_fields(Self::spec_prefix(v, 5), opt_string(6, v.file_description), Self::apply_fn())
                == Ok::<SpecCPublishedFile_Publish_Request, WireError>(Self::spec_prefix(v, 6)),
    {
        reveal(CPublishedFile_Publish_Request::spec_prefix);
        reveal(opt_string);
        let apply = Self::apply_fn();
        let s = Self::spec_prefix(v, 5);
        lemma_fold_opt(s, 6, match v.file_description { Some(x) => Some(enc_string(x)), None => None }, apply);
        if let Some(x) = v.file_description {
            lemma_string_roundtrip(x);
        }
        assert(SpecCPublishedFile_Publish_Request { file_description: v.file_description, ..s } == Self::spec_prefix(v, 6));
    }

    /// Reading field 7 back, after the fields before it.
    proof fn lemma_field_file_type(v: SpecCPublishedFile_Publish_Request)
        ensures
            fold_fields(Self::spec_prefix(v, 6), opt_u32(7, v.file_type), Self::apply_fn())
                == Ok::<SpecCPublishedFile_Publish_Request, WireError>(Self::spec_prefix(v, 7)),
    {
        reveal(CPublishedFile_Publish_Request::spec_prefix);
        reveal(opt_u32);
        let apply = Self::apply_fn();
        let s = Self::spec_prefix(v, 6);
        lemma_fold_opt(s, 7, match v.file_type { Some(x) => Some(enc_u32(x)), None => None }, apply);
        if let Some(x) = v.file_type {
            lemma_u32_roundtrip(x);
        }
        assert(SpecCPublishedFile_Publish_Request { file_type: v.file_type, ..s } == Self::spec_prefix(v, 7));
    }

    /// Reading field 8 back, after the fields before it.
    proof fn lemma_field_consumer_shortcut_name(v: SpecCPublishedFile_Publish_Request)
        ensures
            fold_fields(Self::spec_prefix(v, 7), opt_string(8, v.consumer_shortcut_name), Self::apply_fn())
                == Ok::<SpecCPublishedFile_Publish_Request, WireError>(Self::spec_prefix(v, 8)),
    {
        reveal(CPublishedFile_Publish_Request::spec_prefix);
        reveal(opt_string);
        let apply = Self::apply_fn();
        let s = Self::spec_prefix(v, 7);
        lemma_fold_opt(s, 8, match v.consumer_shortcut_name { Some(x) => Some(enc_string(x)), None => None }, apply);
        if let Some(x) = v.consumer_shortcut_name {
            lemma_string_roundtrip(x);
        }
        assert(SpecCPublishedFile_Publish_Request { consumer_shortcut_name: v.consumer_shortcut_name, ..s } == Self::spec_prefix(v, 8));
    }

    /// Reading field 9 back, after the fields before it.
    proof fn lemma_field_youtube_username(v: SpecCPublishedFile_Publish_Request)
        ensures
            fold_fields(Self::spec_prefix(v, 8), opt_string(9, v.youtube_username), Self::apply_fn())
                == Ok::<SpecCPublishedFile_Publish_Request, WireError>(Self::spec_prefix(v, 9)),
    {
        reveal(CPublishedFile_Publish_Request::spec_prefix);
        reveal(opt_string);
        let apply = Self::apply_fn();
        let s = Self::spec_prefix(v, 8);
        lemma_fold_opt(s, 9, match v.youtube_username { Some(x) => Some(enc_string(x)), None => None }, apply);
        if let Some(x) = v.youtube_username {
            lemma_string_roundtrip(x);
        }
        assert(SpecCPublishedFile_Publish_Request { youtube_username: v.youtube_username, ..s } == Self::spec_prefix(v, 9));
    }

    /// Reading field 10 back, after the fields before it.
    proof fn lemma_field_youtube_videoid(v: SpecCPublishedFile_Publish_Request)
        ensures
            fold_fields(Self::spec_prefix(v, 9), opt_string(10, v.youtube_videoid), Self::apply_fn())
                == Ok::<SpecCPublishedFile_Publish_Request, WireError>(Self::spec_prefix(v, 10)),
    {
        reveal(CPublishedFile_Publish_Request::spec_prefix);
        reveal(opt_string);
        let apply = Self::apply_fn();
        let s = Self::spec_prefix(v, 9);
        lemma_fold_opt(s, 10, match v.youtube_videoid { Some(x) => Some(enc_string(x)), None => None }, apply);
        if let Some(x) = v.youtube_videoid {
            lemma_string_roundtrip(x);
        }
        assert(SpecCPublishedFile_Publish_Request { youtube_videoid: v.youtube_videoid, ..s } == Self::spec_prefix(v, 10));
    }

    /// Reading field 11 back, after the fields before it.
    proof fn lemma_field_visibility(v: SpecCPublishedFile_Publish_Request)
        ensures
            fold_fields(Self::spec_prefix(v, 10), opt_u32(11, v.visibility), Self::apply_fn())
                == Ok::<SpecCPublishedFile_Publish_Request, WireError>(Self::spec_prefix(v, 11)),
    {
        reveal(CPublishedFile_Publish_Request::spec_prefix);
        reveal(opt_u32);
        let apply = Self::apply_fn();
        let s = Self::spec_prefix(v, 10);
        lemma_fold_opt(s, 11, match v.visibility { Some(x) => Some(enc_u32(x)), None => None }, apply);
        if let Some(x) = v.visibility {
            lemma_u32_roundtrip(x);
        }
        assert(SpecCPublishedFile_Publish_Request { visibility: v.visibility, ..s } == Self::spec_prefix(v, 11));
    }

    /// Reading field 12 back, after the fields before it.
    proof fn lemma_field_redirect_uri(v: SpecCPublishedFile_Publish_Request)
        ensures
            fold_fields(Self::spec_prefix(v, 11), opt_string(12, v.redirect_uri), Self::apply_fn())
                == Ok::<SpecCPublishedFile_Publish_Request, WireError>(Self::spec_prefix(v, 12)),
    {
        reveal(CPublishedFile_Publish_Request::spec_prefix);
        reveal(opt_string);
        let apply = Self::apply_fn();
        let s = Self::spec_prefix(v, 11);
        lemma_fold_opt(s, 12, match v.redirect_uri { Some(x) => Some(enc_string(x)), None => None }, apply);
        if let Some(x) = v.redirect_uri {
            lemma_string_roundtrip(x);
        }
        assert(SpecCPublishedFile_Publish_Request { redirect_uri: v.redirect_uri, ..s } == Self::spec_prefix(v, 12));
    }

    /// Reading field 13 back, after the fields before it.
    proof fn lemma_field_tags(v: SpecCPublishedFile_Publish_Request)
        ensures
            fold_fields(Self::spec_prefix(v, 12), rep_string(13, v.tags), Self::apply_fn())
                == Ok::<SpecCPublishedFile_Publish_Request, WireError>(Self::spec_prefix(v, 13)),
    {
        reveal(CPublishedFile_Publish_Request::spec_prefix);
        reveal(rep_string);
        let apply = Self::apply_fn();
        let s = Self::spec_prefix(v, 12);
        let l = rep_string(13, v.tags);
        let xs = v.tags;
        let st = Seq::new((xs.len() + 1) as nat, |j: int| SpecCPublishedFile_Publish_Request { tags: xs.take(j), ..s });
        assert forall|j: int| 0 <= j < l.len() implies #[trigger] apply(st[j], l[j]) == Ok::<SpecCPublishedFile_Publish_Request, WireError>(st[j + 1]) by {
            lemma_string_roundtrip(xs[j]);
            assert(xs.take(j).push(xs[j]) =~= xs.take(j + 1));
        }
        lemma_fold_chain(l, st, apply);
        assert(xs.take(0) =~= Seq::<Seq<char>>::empty());
        assert(xs.take(xs.len() as int) =~= xs);
        assert(st[0] == s);
        assert(st[xs.len() as int] == Self::spec_prefix(v, 13));
    }

    /// Reading field 14 back, after the fields before it.
    proof fn lemma_field_collection_type(v: SpecCPublishedFile_Publish_Request)
        ensures
            fold_fields(Self::spec_prefix(v, 13), opt_string(14, v.collection_type), Self::apply_fn())
                == Ok::<SpecCPublishedFile_Publish_Request, WireError>(Self::spec_prefix(v, 14)),
    {
        reveal(CPublishedFile_Publish_Request::spec_prefix);
        reveal(opt_string);
        let apply = Self::apply_fn();
        let s = Self::spec_prefix(v, 13);
        lemma_fold_opt(s, 14, match v.collection_type { Some(x) => Some(enc_string(x)), None => None }, apply);
        if let Some(x) = v.collection_type {
            lemma_string_roundtrip(x);
        }
        assert(SpecCPublishedFile_Publish_Request { collection_type: v.collection_type, ..s } == Self::spec_prefix(v, 14));
    }

    /// Reading field 15 back, after the fields before it.
    proof fn lemma_field_game_type(v: SpecCPublishedFile_Publish_Request)
        ensures
            fold_fields(Self::spec_prefix(v, 14), opt_string(15, v.game_type), Self::apply_fn())
                == Ok::<SpecCPublishedFile_Publish_Request, WireError>(Self::spec_prefix(v, 15)),
    {
        reveal(CPublishedFile_Publish_Request::spec_prefix);
        reveal(opt_string);
        let apply = Self::apply_fn();
        let s = Self::spec_prefix(v, 14);
        lemma_fold_opt(s, 15, match v.game_type { Some(x) => Some(enc_string(x)), None => None }, apply);
        if let Some(x) = v.game_type {
            lemma_string_roundtrip(x);
        }
        assert(SpecCPublishedFile_Publish_Request { game_type: v.game_type, ..s } == Self::spec_prefix(v, 15));
    }

    /// Reading field 16 back, after the fields before it.
    proof fn lemma_field_url(v: SpecCPublishedFile_Publish_Request)
        ensures
            fold_fields(Self::spec_prefix(v, 15), opt_string(16, v.url), Self::apply_fn())
                == Ok::<SpecCPublishedFile_Publish_Request, WireError>(Self::spec_prefix(v, 16)),
    {
        reveal(CPublishedFile_Publish_Request::spec_prefix);
        reveal(opt_string);
        let apply = Self::apply_fn();
        let s = Self::spec_prefix(v, 15);
        lemma_fold_opt(s, 16, match v.url { Some(x) => Some(enc_string(x)), None => None }, apply);
        if let Some(x) = v.url {
            lemma_string_roundtrip(x);
        }
        assert(SpecCPublishedFile_Publish_Request { url: v.url, ..s } == Self::spec_prefix(v, 16));
    }

    /// Whether this message declares field number `n`.
    pub open spec fn declares(n: u32) -> bool {
        n == 1 || n == 2 || n == 3 || n == 4 || n == 5 || n == 6 || n == 7 || n == 8 || n == 9 || n == 10 || n == 11 || n == 12 || n == 13 || n == 14 || n == 15 || n == 16
    }

    /// A record with a number this message does not declare is passed over: well-formed
    /// bytes decode to the same message with such a record after them as without it.
    pub proof fn lemma_unknown_field(bytes: Seq<u8>, f: SpecField)
        requires
            parse_fields(bytes) is Ok,
            field_wf(f),
            !Self::declares(f.number),
        ensures
            Self::spec_decode(bytes + field_bytes(f)) == Self::spec_decode(bytes),
    {
        reveal(CPublishedFile_Publish_Request::spec_decode);
        lemma_parse_fields_append(bytes, f);
        let fs = parse_fields(bytes).unwrap();
        let apply = Self::apply_fn();
        lemma_fold_concat(Self::spec_default(), fs, seq![f], apply);
        assert(fs.push(f) =~= fs + seq![f]);
        if let Ok(w) = fold_fields(Self::spec_default(), fs, apply) {
            lemma_fold_single(w, f, apply);
        }
        lemma_merge_run_fold(Self::spec_default(), bytes, apply);
        lemma_merge_run_fold(Self::spec_default(), bytes + field_bytes(f), apply);
    }

    /// Decoding the encoding of a message gives the message back.
    pub proof fn lemma_decode_encode(v: SpecCPublishedFile_Publish_Request)
        requires
            Self::spec_encode(v).len() <= u64::MAX,
        ensures
            Self::spec_decode(Self::spec_encode(v)) == Ok::<SpecCPublishedFile_Publish_Request, WireError>(v),
    {
        let apply = Self::apply_fn();
        let d = Self::spec_default();
        let p0 = Seq::<SpecField>::empty();
        let l1 = opt_u32(1, v.appid);
        let p1 = p0 + l1;
        let l2 = opt_u32(2, v.consumer_appid);
        let p2 = p1 + l2;
        let l3 = opt_string(3, v.cloudfilename);
        let p3 = p2 + l3;
        let l4 = opt_string(4, v.preview_cloudfilename);
        let p4 = p3 + l4;
        let l5 = opt_string(5, v.title);
        let p5 = p4 + l5;
        let l6 = opt_string(6, v.file_description);
        let p6 = p5 + l6;
        let l7 = opt_u32(7, v.file_type);
        let p7 = p6 + l7;
        let l8 = opt_string(8, v.consumer_shortcut_name);
        let p8 = p7 + l8;
        let l9 = opt_string(9, v.youtube_username);
        let p9 = p8 + l9;
        let l10 = opt_string(10, v.youtube_videoid);
        let p10 = p9 + l10;
        let l11 = opt_u32(11, v.visibility);
        let p11 = p10 + l11;
        let l12 = opt_string(12, v.redirect_uri);
        let p12 = p11 + l12;
        let l13 = rep_string(13, v.tags);
        let p13 = p12 + l13;
        let l14 = opt_string(14, v.collection_type);
        let p14 = p13 + l14;
        let l15 = opt_string(15, v.game_type);
        let p15 = p14 + l15;
        let l16 = opt_string(16, v.url);
        let p16 = p15 + l16;
        assert(parse_fields(Self::spec_encode(v)) == Ok::<Seq<SpecField>, WireError>(p16)) by {
            reveal(CPublishedFile_Publish_Request::spec_encode);
            assert(numbers_ok(p0) && fields_wf(p0)) by {
                reveal(numbers_ok);
                reveal(fields_wf);
            }
            lemma_opt_u32_numbered(1, v.appid);
            lemma_fields_wf_concat(p0, l1);
            lemma_opt_u32_numbered(2, v.consumer_appid);
            lemma_fields_wf_concat(p1, l2);
            lemma_opt_string_numbered(3, v.cloudfilename);
            lemma_fields_wf_concat(p2, l3);
            lemma_opt_string_numbered(4, v.preview_cloudfilename);
            lemma_fields_wf_concat(p3, l4);
            lemma_opt_string_numbered(5, v.title);
            lemma_fields_wf_concat(p4, l5);
            lemma_opt_string_numbered(6, v.file_description);
            lemma_fields_wf_concat(p5, l6);
            lemma_opt_u32_numbered(7, v.file_type);
            lemma_fields_wf_concat(p6, l7);
            lemma_opt_string_numbered(8, v.consumer_shortcut_name);
            lemma_fields_wf_concat(p7, l8);
            lemma_opt_string_numbered(9, v.youtube_username);
            lemma_fields_wf_concat(p8, l9);
            lemma_opt_string_numbered(10, v.youtube_videoid);
            lemma_fields_wf_concat(p9, l10);
            lemma_opt_u32_numbered(11, v.visibility);
            lemma_fields_wf_concat(p10, l11);
            lemma_opt_string_numbered(12, v.redirect_uri);
            lemma_fields_wf_concat(p11, l12);
            lemma_rep_string_numbered(13, v.tags);
            lemma_fields_wf_concat(p12, l13);
            lemma_opt_string_numbered(14, v.collection_type);
            lemma_fields_wf_concat(p13, l14);
            lemma_opt_string_numbered(15, v.game_type);
            lemma_fields_wf_concat(p14, l15);
            lemma_opt_string_numbered(16, v.url);
            lemma_fields_wf_concat(p15, l16);
            assert(p16 == Self::spec_fields(v));
            lemma_fields_wf_from_len(p16);
            lemma_fields_roundtrip(p16);
        }
        assert(Self::spec_prefix(v, 0) == d) by {
            reveal(CPublishedFile_Publish_Request::spec_prefix);
        }
        lemma_fold_empty(d, apply);
        lemma_fold_concat(d, p0, l1, apply);
        Self::lemma_field_appid(v);
        lemma_fold_concat(d, p1, l2, apply);
        Self::lemma_field_consumer_appid(v);
        lemma_fold_concat(d, p2, l3, apply);
        Self::lemma_field_cloudfilename(v);
        lemma_fold_concat(d, p3, l4, apply);
        Self::lemma_field_preview_cloudfilename(v);
        lemma_fold_concat(d, p4, l5, apply);
        Self::lemma_field_title(v);
        lemma_fold_concat(d, p5, l6, apply);
        Self::lemma_field_file_description(v);
        lemma_fold_concat(d, p6, l7, apply);
        Self::lemma_field_file_type(v);
        lemma_fold_concat(d, p7, l8, apply);
        Self::lemma_field_consumer_shortcut_name(v);
        lemma_fold_concat(d, p8, l9, apply);
        Self::lemma_field_youtube_username(v);
        lemma_fold_concat(d, p9, l10, apply);
        Self::lemma_field_youtube_videoid(v);
        lemma_fold_concat(d, p10, l11, apply);
        Self::lemma_field_visibility(v);
        lemma_fold_concat(d, p11, l12, apply);
        Self::lemma_field_redirect_uri(v);
        lemma_fold_concat(d, p12, l13, apply);
        Self::lemma_field_tags(v);
        lemma_fold_concat(d, p13, l14, apply);
        Self::lemma_field_collection_type(v);
        lemma_fold_concat(d, p14, l15, apply);
        Self::lemma_field_game_type(v);
        lemma_fold_concat(d, p15, l16, apply);
        Self::lemma_field_url(v);
        assert(Self::spec_prefix(v, 16) == v) by {
            reveal(CPublishedFile_Publish_Request::spec_prefix);
        }
        lemma_merge_run_fold(d, Self::spec_encode(v), apply);
        assert(Self::spec_decode(Self::spec_encode(v)) == Ok::<SpecCPublishedFile_Publish_Request, WireError>(v)) by {
            reveal(CPublishedFile_Publish_Request::spec_decode);
        }
    }
}

/// `CPublishedFile_Publish_Response`, as Valve's schema declares it.
#[derive(Debug, Clone, PartialEq)]
pub struct CPublishedFile_Publish_Response {
    /// Field 1.
    pub publishedfileid: Option<u64>,
    /// Field 2.
    pub redirect_uri: Option<String>,
}

/// What a `CPublishedFile_Publish_Response` holds, as mathematical values.
#[verifier::ext_equal]
pub struct SpecCPublishedFile_Publish_Response {
    pub publishedfileid: Option<u64>,
    pub redirect_uri: Option<Seq<char>>,
}

impl View for CPublishedFile_Publish_Response {
    type V = SpecCPublishedFile_Publish_Response;

    open spec fn view(&self) -> SpecCPublishedFile_Publish_Response {
        SpecCPublishedFile_Publish_Response {
            publishedfileid: self.publishedfileid,
            redirect_uri: opt_string_view(self.redirect_uri),
        }
    }
}

impl Default for CPublishedFile_Publish_Response {
    fn default() -> (r: Self)
        ensures
            r@ == CPublishedFile_Publish_Response::spec_default(),
    {
        CPublishedFile_Publish_Response {
            publishedfileid: None,
            redirect_uri: None,
        }
    }
}

impl CPublishedFile_Publish_Response {
    pub open spec fn spec_default() -> SpecCPublishedFile_Publish_Response {
        SpecCPublishedFile_Publish_Response {
            publishedfileid: None,
            redirect_uri: None,
        }
    }

    /// The records a `CPublishedFile_Publish_Response` is written as, in field order.
    pub open spec fn spec_fields(v: SpecCPublishedFile_Publish_Response) -> Seq<SpecField> {
        Seq::<SpecField>::empty()
            + opt_u64(1, v.publishedfileid)
            + opt_string(2, v.redirect_uri)
    }

    #[verifier::opaque]
    pub open spec fn spec_encode(v: SpecCPublishedFile_Publish_Response) -> Seq<u8> {
        fields_bytes(Self::spec_fields(v))
    }

    /// What one record does to the message: a declared number sets or extends its
    /// field, any other number is left alone.
    pub open spec fn spec_apply(v: SpecCPublishedFile_Publish_Response, f: SpecField) -> Result<SpecCPublishedFile_Publish_Response, WireError> {
        match f.number {
            1 => match dec_u64(f.value) {
                Ok(x) => Ok(SpecCPublishedFile_Publish_Response { publishedfileid: Some(x), ..v }),
                Err(e) => Err(e),
            },
            2 => match dec_string(f.value) {
                Ok(x) => Ok(SpecCPublishedFile_Publish_Response { redirect_uri: Some(x), ..v }),
                Err(e) => Err(e),
            },
            _ => Ok(v),
        }
    }

    pub open spec fn apply_fn() -> spec_fn(SpecCPublishedFile_Publish_Response, SpecField) -> Result<SpecCPublishedFile_Publish_Response, WireError> {
        |v: SpecCPublishedFile_Publish_Response, f: SpecField| Self::spec_apply(v, f)
    }

    /// The message `bytes` makes of `v`: its records applied in order, or the error
    /// that stops the reading.
    pub open spec fn spec_merge(v: SpecCPublishedFile_Publish_Response, bytes: Seq<u8>) -> Result<SpecCPublishedFile_Publish_Response, WireError> {
        let (w, stop) = merge_run(v, bytes, Self::apply_fn());
        match stop {
            None => Ok(w),
            Some(e) => Err(e),
        }
    }

    #[verifier::opaque]
    pub open spec fn spec_decode(bytes: Seq<u8>) -> Result<SpecCPublishedFile_Publish_Response, WireError> {
        Self::spec_merge(Self::spec_default(), bytes)
    }

    /// This message with one record applied to it, or, when the record is refused,
    /// the message unchanged and the reason.
    fn applied(self, f: &Field) -> (r: Result<Self, (Self, WireError)>)
        ensures
            match Self::spec_apply(self@, f@) {
                Ok(v) => r matches Ok(m) && m@ == v,
                Err(e) => r matches Err((m, x)) && x == e && m@ == self@,
            },
    {
        match f.number {
            1 => match read_u64(&f.value) {
                Ok(x) => Ok(Self { publishedfileid: Some(x), ..self }),
                Err(e) => Err((self, e)),
            },
            2 => match read_string(&f.value) {
                Ok(x) => Ok(Self { redirect_uri: Some(x), ..self }),
                Err(e) => Err((self, e)),
            },
            _ => Ok(self),
        }
    }

    /// Reads the records `bytes` holds into this message, in order. When a record does
    /// not parse or is refused, the reading stops there: the message keeps what the
    /// records before it gave, and the error is returned.
    pub fn merge(&mut self, bytes: &[u8]) -> (r: Result<(), WireError>)
        ensures
            final(self)@ == merge_run(old(self)@, bytes@, Self::apply_fn()).0,
            r == match merge_run(old(self)@, bytes@, Self::apply_fn()).1 {
                None => Ok::<(), WireError>(()),
                Some(e) => Err::<(), WireError>(e),
            },
    {
        let ghost total = merge_run(self@, bytes@, Self::apply_fn());
        let mut cur = Self::default();
        std::mem::swap(&mut cur, self);
        let mut pos: usize = 0;
        assert(bytes@.skip(0) =~= bytes@);
        while pos < bytes.len()
            invariant
                pos <= bytes@.len(),
                total == merge_run(old(self)@, bytes@, Self::apply_fn()),
                merge_run(cur@, bytes@.skip(pos as int), Self::apply_fn()) == total,
            decreases bytes@.len() - pos,
        {
            let ghost s = bytes@.skip(pos as int);
            proof {
                lemma_merge_run_step(cur@, s, Self::apply_fn());
                lemma_parse_field_len(s);
            }
            match read_field(bytes, pos) {
                Ok((f, end)) => {
                    assert(bytes@.skip(end as int) =~= s.skip((end - pos) as int));
                    match cur.applied(&f) {
                        Ok(m) => {
                            cur = m;
                        },
                        Err((m, e)) => {
                            *self = m;
                            return Err(e);
                        },
                    }
                    pos = end;
                },
                Err(e) => {
                    *self = cur;
                    return Err(e);
                },
            }
        }
        assert(bytes@.skip(pos as int) =~= Seq::<u8>::empty());
        proof {
            lemma_merge_run_empty(cur@, Self::apply_fn());
        }
        *self = cur;
        Ok(())
    }

    /// Decodes a message from its encoding.
    pub fn decode(bytes: &[u8]) -> (r: Result<Self, WireError>)
        ensures
            match Self::spec_decode(bytes@) {
                Ok(v) => r matches Ok(m) && m@ == v,
                Err(e) => r matches Err(x) && x == e,
            },
    {
        proof {
            reveal(CPublishedFile_Publish_Response::spec_decode);
        }
        let mut m = Self::default();
        match m.merge(bytes) {
            Ok(()) => Ok(m),
            Err(e) => Err(e),
        }
    }

    /// The encoding of this message.
    pub fn encode_to_vec(&self) -> (r: Vec<u8>)
        ensures
            r@ == Self::spec_encode(self@),
    {
        let ghost v = self@;
        let mut out: Vec<u8> = Vec::new();
        let ghost p0 = Seq::<SpecField>::empty();
        put_opt_varint(&mut out, 1, self.publishedfileid);
        let ghost p1 = p0 + opt_u64(1, v.publishedfileid);
        proof {
            lemma_fields_bytes_concat(p0, opt_u64(1, v.publishedfileid));
        }
        put_opt_string(&mut out, 2, &self.redirect_uri);
        let ghost p2 = p1 + opt_string(2, v.redirect_uri);
        proof {
            lemma_fields_bytes_concat(p1, opt_string(2, v.redirect_uri));
        }
        proof {
            reveal(CPublishedFile_Publish_Response::spec_encode);
        }
        assert(p2 == Self::spec_fields(v));
        out
    }

    /// Appends the encoding of this message to `out`.
    pub fn encode_raw(&self, out: &mut Vec<u8>)
        ensures
            final(out)@ == old(out)@ + Self::spec_encode(self@),
    {
        let mut b = self.encode_to_vec();
        out.append(&mut b);
    }

    /// The first `k` fields of `v`, the others as a fresh message has them.
    #[verifier::opaque]
    pub open spec fn spec_prefix(v: SpecCPublishedFile_Publish_Response, k: int) -> SpecCPublishedFile_Publish_Response {
        SpecCPublishedFile_Publish_Response {
            publishedfileid: if 1 <= k { v.publishedfileid } else { None },
            redirect_uri: if 2 <= k { v.redirect_uri } else { None },
        }
    }

    /// Reading field 1 back, after the fields before it.
    proof fn lemma_field_publishedfileid(v: SpecCPublishedFile_Publish_Response)
        ensures
            fold_fields(Self::spec_prefix(v, 0), opt_u64(1, v.publishedfileid), Self::apply_fn())
                == Ok::<SpecCPublishedFile_Publish_Response, WireError>(Self::spec_prefix(v, 1)),
    {
        reveal(CPublishedFile_Publish_Response::spec_prefix);
        reveal(opt_u64);
        let apply = Self::apply_fn();
        let s = Self::spec_prefix(v, 0);
        lemma_fold_opt(s, 1, match v.publishedfileid { Some(x) => Some(enc_u64(x)), None => None }, apply);
        if let Some(x) = v.publishedfileid {
            lemma_u64_roundtrip(x);
        }
        assert(SpecCPublishedFile_Publish_Response { publishedfileid: v.publishedfileid, ..s } == Self::spec_prefix(v, 1));
    }

    /// Reading field 2 back, after the fields before it.
    proof fn lemma_field_redirect_uri(v: SpecCPublishedFile_Publish_Response)
        ensures
            fold_fields(Self::spec_prefix(v, 1), opt_string(2, v.redirect_uri), Self::apply_fn())
                == Ok::<SpecCPublishedFile_Publish_Response, WireError>(Self::spec_prefix(v, 2)),
    {
        reveal(CPublishedFile_Publish_Response::spec_prefix);
        reveal(opt_string);
        let apply = Self::apply_fn();
        let s = Self::spec_prefix(v, 1);
        lemma_fold_opt(s, 2, match v.redirect_uri { Some(x) => Some(enc_string(x)), None => None }, apply);
        if let Some(x) = v.redirect_uri {
            lemma_string_roundtrip(x);
        }
        assert(SpecCPublishedFile_Publish_Response { redirect_uri: v.redirect_uri, ..s } == Self::spec_prefix(v, 2));
    }

    /// Whether this message declares field number `n`.
    pub open spec fn declares(n: u32) -> bool {
        n == 1 || n == 2
    }

    /// A record with a number this message does not declare is passed over: well-formed
    /// bytes decode to the same message with such a record after them as without it.
    pub proof fn lemma_unknown_field(bytes: Seq<u8>, f: SpecField)
        requires
            parse_fields(bytes) is Ok,
            field_wf(f),
            !Self::declares(f.number),
        ensures
            Self::spec_decode(bytes + field_bytes(f)) == Self::spec_decode(bytes),
    {
        reveal(CPublishedFile_Publish_Response::spec_decode);
        lemma_parse_fields_append(bytes, f);
        let fs = parse_fields(bytes).unwrap();
        let apply = Self::apply_fn();
        lemma_fold_concat(Self::spec_default(), fs, seq![f], apply);
        assert(fs.push(f) =~= fs + seq![f]);
        if let Ok(w) = fold_fields(Self::spec_default(), fs, apply) {
            lemma_fold_single(w, f, apply);
        }
        lemma_merge_run_fold(Self::spec_default(), bytes, apply);
        lemma_merge_run_fold(Self::spec_default(), bytes + field_bytes(f), apply);
    }

    /// Decoding the encoding of a message gives the message back.
    pub proof fn lemma_decode_encode(v: SpecCPublishedFile_Publish_Response)
        requires
            Self::spec_encode(v).len() <= u64::MAX,
        ensures
            Self::spec_decode(Self::spec_encode(v)) == Ok::<SpecCPublishedFile_Publish_Response, WireError>(v),
    {
        let apply = Self::apply_fn();
        let d = Self::spec_default();
        let p0 = Seq::<SpecField>::empty();
        let l1 = opt_u64(1, v.publishedfileid);
        let p1 = p0 + l1;
        let l2 = opt_string(2, v.redirect_uri);
        let p2 = p1 + l2;
        assert(parse_fields(Self::spec_encode(v)) == Ok::<Seq<SpecField>, WireError>(p2)) by {
            reveal(CPublishedFile_Publish_Response::spec_encode);
            assert(numbers_ok(p0) && fields_wf(p0)) by {
                reveal(numbers_ok);
                reveal(fields_wf);
            }
            lemma_opt_u64_numbered(1, v.publishedfileid);
            lemma_fields_wf_concat(p0, l1);
            lemma_opt_string_numbered(2, v.redirect_uri);
            lemma_fields_wf_concat(p1, l2);
            assert(p2 == Self::spec_fields(v));
            lemma_fields_wf_from_len(p2);
            lemma_fields_roundtrip(p2);
        }
        assert(Self::spec_prefix(v, 0) == d) by {
            reveal(CPublishedFile_Publish_Response::spec_prefix);
        }
        lemma_fold_empty(d, apply);
        lemma_fold_concat(d, p0, l1, apply);
        Self::lemma_field_publishedfileid(v);
        lemma_fold_concat(d, p1, l2, apply);
        Self::lemma_field_redirect_uri(v);
        assert(Self::spec_prefix(v, 2) == v) by {
            reveal(CPublishedFile_Publish_Response::spec_prefix);
        }
        lemma_merge_run_fold(d, Self::spec_encode(v), apply);
        assert(Self::spec_decode(Self::spec_encode(v)) == Ok::<SpecCPublishedFile_Publish_Response, WireError>(v)) by {
            reveal(CPublishedFile_Publish_Response::spec_decode);
        }
    }
}

/// `CPublishedFile_GetDetails_Request`, as Valve's schema declares it.
#[derive(Debug, Clone, PartialEq)]
pub struct CPublishedFile_GetDetails_Request {
    /// Field 1.
    pub publishedfileids: Vec<u64>,
    /// Field 2.
    pub includetags: Option<bool>,
    /// Field 3.
    pub includeadditionalpreviews: Option<bool>,
    /// Field 4.
    pub includechildren: Option<bool>,
    /// Field 5.
    pub includekvtags: Option<bool>,
    /// Field 6.
    pub includevotes: Option<bool>,
    /// Field 8.
    pub short_description: Option<bool>,
    /// Field 10.
    pub includeforsaledata: Option<bool>,
    /// Field 11.
    pub includemetadata: Option<bool>,
    /// Field 12.
    pub language: Option<i32>,
    /// Field 13.
    pub return_playtime_stats: Option<u32>,
    /// Field 14.
    pub appid: Option<u32>,
    /// Field 15.
    pub strip_description_bbcode: Option<bool>,
    /// Field 16.
    pub desired_revision: Option<crate::steammessages_publishedfile_steamclient::EPublishedFileRevision>,
    /// Field 17.
    pub includereactions: Option<bool>,
    /// Field 18.
    pub admin_query: Option<bool>,
}

/// What a `CPublishedFile_GetDetails_Request` holds, as mathematical values.
#[verifier::ext_equal]
pub struct SpecCPublishedFile_GetDetails_Request {
    pub publishedfileids: Seq<u64>,
    pub includetags: Option<bool>,
    pub includeadditionalpreviews: Option<bool>,
    pub includechildren: Option<bool>,
    pub includekvtags: Option<bool>,
    pub includevotes: Option<bool>,
    pub short_description: Option<bool>,
    pub includeforsaledata: Option<bool>,
    pub includemetadata: Option<bool>,
    pub language: Option<i32>,
    pub return_playtime_stats: Option<u32>,
    pub appid: Option<u32>,
    pub strip_description_bbcode: Option<bool>,
    pub desired_revision: Option<i32>,
    pub includereactions: Option<bool>,
    pub admin_query: Option<bool>,
}

impl View for CPublishedFile_GetDetails_Request {
    type V = SpecCPublishedFile_GetDetails_Request;

    open spec fn view(&self) -> SpecCPublishedFile_GetDetails_Request {
        SpecCPublishedFile_GetDetails_Request {
            publishedfileids: self.publishedfileids@,
            includetags: self.includetags,
            includeadditionalpreviews: self.includeadditionalpreviews,
            includechildren: self.includechildren,
            includekvtags: self.includekvtags,
            includevotes: self.includevotes,
            short_description: self.short_description,
            includeforsaledata: self.includeforsaledata,
            includemetadata: self.includemetadata,
            language: self.language,
            return_playtime_stats: self.return_playtime_stats,
            appid: self.appid,
            strip_description_bbcode: self.strip_description_bbcode,
            desired_revision: match self.desired_revision { Some(e) => Some(e.0), None => None },
            includereactions: self.includereactions,
            admin_query: self.admin_query,
        }
    }
}

impl Default for CPublishedFile_GetDetails_Request {
    fn default() -> (r: Self)
        ensures
            r@ == CPublishedFile_GetDetails_Request::spec_default(),
    {
        CPublishedFile_GetDetails_Request {
            publishedfileids: Vec::new(),
            includetags: None,
            includeadditionalpreviews: None,
            includechildren: None,
            includekvtags: None,
            includevotes: None,
            short_description: None,
            includeforsaledata: None,
            includemetadata: None,
            language: None,
            return_playtime_stats: None,
            appid: None,
            strip_description_bbcode: None,
            desired_revision: None,
            includereactions: None,
            admin_query: None,
        }
    }
}

impl CPublishedFile_GetDetails_Request {
    /// Field 12, or its schema default when absent.
    pub fn language_or_default(&self) -> (r: i32)
        ensures
            r == match self.language {
                Some(x) => x,
                None => 0i32,
            },
    {
        self.language.unwrap_or(0i32)
    }

    /// Field 16, or its schema default when absent.
    pub fn desired_revision_or_default(&self) -> (r: crate::steammessages_publishedfile_steamclient::EPublishedFileRevision)
        ensures
            r == match self.desired_revision {
                Some(e) => e,
                None => crate::steammessages_publishedfile_steamclient::EPublishedFileRevision(0),
            },
    {
        match self.desired_revision {
            Some(e) => e,
            None => crate::steammessages_publishedfile_steamclient::EPublishedFileRevision::k_EPublishedFileRevision_Default(),
        }
    }

    /// Field 17, or its schema default when absent.
    pub fn includereactions_or_default(&self) -> (r: bool)
        ensures
            r == match self.includereactions {
                Some(x) => x,
                None => false,
            },
    {
        self.includereactions.unwrap_or(false)
    }

    pub open spec fn spec_default() -> SpecCPublishedFile_GetDetails_Request {
        SpecCPublishedFile_GetDetails_Request {
            publishedfileids: Seq::empty(),
            includetags: None,
            includeadditionalpreviews: None,
            includechildren: None,
            includekvtags: None,
            includevotes: None,
            short_description: None,
            includeforsaledata: None,
            includemetadata: None,
            language: None,
            return_playtime_stats: None,
            appid: None,
            strip_description_bbcode: None,
            desired_revision: None,
            includereactions: None,
            admin_query: None,
        }
    }

    /// The records a `CPublishedFile_GetDetails_Request` is written as, in field order.
    pub open spec fn spec_fields(v: SpecCPublishedFile_GetDetails_Request) -> Seq<SpecField> {
        Seq::<SpecField>::empty()
            + rep_fixed64(1, v.publishedfileids)
            + opt_bool(2, v.includetags)
            + opt_bool(3, v.includeadditionalpreviews)
            + opt_bool(4, v.includechildren)
            + opt_bool(5, v.includekvtags)
            + opt_bool(6, v.includevotes)
            + opt_bool(8, v.short_description)
            + opt_bool(10, v.includeforsaledata)
            + opt_bool(11, v.includemetadata)
            + opt_i32(12, v.language)
            + opt_u32(13, v.return_playtime_stats)
            + opt_u32(14, v.appid)
            + opt_bool(15, v.strip_description_bbcode)
            + opt_i32(16, v.desired_revision)
            + opt_bool(17, v.includereactions)
            + opt_bool(18, v.admin_query)
    }

    #[verifier::opaque]
    pub open spec fn spec_encode(v: SpecCPublishedFile_GetDetails_Request) -> Seq<u8> {
        fields_bytes(Self::spec_fields(v))
    }

    /// What one record does to the message: a declared number sets or extends its
    /// field, any other number is left alone.
    pub open spec fn spec_apply(v: SpecCPublishedFile_GetDetails_Request, f: SpecField) -> Result<SpecCPublishedFile_GetDetails_Request, WireError> {
        match f.number {
            1 => match dec_packed_fixed64(f.value) {
                Ok(xs) => Ok(SpecCPublishedFile_GetDetails_Request { publishedfileids: v.publishedfileids + xs, ..v }),
                Err(e) => Err(e),
            },
            2 => match dec_bool(f.value) {
                Ok(x) => Ok(SpecCPublishedFile_GetDetails_Request { includetags: Some(x), ..v }),
                Err(e) => Err(e),
            },
            3 => match dec_bool(f.value) {
                Ok(x) => Ok(SpecCPublishedFile_GetDetails_Request { includeadditionalpreviews: Some(x), ..v }),
                Err(e) => Err(e),
            },
            4 => match dec_bool(f.value) {
                Ok(x) => Ok(SpecCPublishedFile_GetDetails_Request { includechildren: Some(x), ..v }),
                Err(e) => Err(e),
            },
            5 => match dec_bool(f.value) {
                Ok(x) => Ok(SpecCPublishedFile_GetDetails_Request { includekvtags: Some(x), ..v }),
                Err(e) => Err(e),
            },
            6 => match dec_bool(f.value) {
                Ok(x) => Ok(SpecCPublishedFile_GetDetails_Request { includevotes: Some(x), ..v }),
                Err(e) => Err(e),
            },
            8 => match dec_bool(f.value) {
                Ok(x) => Ok(SpecCPublishedFile_GetDetails_Request { short_description: Some(x), ..v }),
                Err(e) => Err(e),
            },
            10 => match dec_bool(f.value) {
                Ok(x) => Ok(SpecCPublishedFile_GetDetails_Request { includeforsaledata: Some(x), ..v }),
                Err(e) => Err(e),
            },
            11 => match dec_bool(f.value) {
                Ok(x) => Ok(SpecCPublishedFile_GetDetails_Request { includemetadata: Some(x), ..v }),
                Err(e) => Err(e),
            },
            12 => match dec_i32(f.value) {
                Ok(x) => Ok(SpecCPublishedFile_GetDetails_Request { language: Some(x), ..v }),
                Err(e) => Err(e),
            },
            13 => match dec_u32(f.value) {
                Ok(x) => Ok(SpecCPublishedFile_GetDetails_Request { return_playtime_stats: Some(x), ..v }),
                Err(e) => Err(e),
            },
            14 => match dec_u32(f.value) {
                Ok(x) => Ok(SpecCPublishedFile_GetDetails_Request { appid: Some(x), ..v }),
                Err(e) => Err(e),
            },
            15 => match dec_bool(f.value) {
                Ok(x) => Ok(SpecCPublishedFile_GetDetails_Request { strip_description_bbcode: Some(x), ..v }),
                Err(e) => Err(e),
            },
            16 => match dec_i32(f.value) {
                Ok(x) => Ok(SpecCPublishedFile_GetDetails_Request { desired_revision: Some(x), ..v }),
                Err(e) => Err(e),
            },
            17 => match dec_bool(f.value) {
                Ok(x) => Ok(SpecCPublishedFile_GetDetails_Request { includereactions: Some(x), ..v }),
                Err(e) => Err(e),
            },
            18 => match dec_bool(f.value) {
                Ok(x) => Ok(SpecCPublishedFile_GetDetails_Request { admin_query: Some(x), ..v }),
                Err(e) => Err(e),
            },
            _ => Ok(v),
        }
    }

    pub open spec fn apply_fn() -> spec_fn(SpecCPublishedFile_GetDetails_Request, SpecField) -> Result<SpecCPublishedFile_GetDetails_Request, WireError> {
        |v: SpecCPublishedFile_GetDetails_Request, f: SpecField| Self::spec_apply(v, f)
    }

    /// The message `bytes` makes of `v`: its records applied in order, or the error
    /// that stops the reading.
    pub open spec fn spec_merge(v: SpecCPublishedFile_GetDetails_Request, bytes: Seq<u8>) -> Result<SpecCPublishedFile_GetDetails_Request, WireError> {
        let (w, stop) = merge_run(v, bytes, Self::apply_fn());
        match stop {
            None => Ok(w),
            Some(e) => Err(e),
        }
    }

    #[verifier::opaque]
    pub open spec fn spec_decode(bytes: Seq<u8>) -> Result<SpecCPublishedFile_GetDetails_Request, WireError> {
        Self::spec_merge(Self::spec_default(), bytes)
    }

    /// This message with one record applied to it, or, when the record is refused,
    /// the message unchanged and the reason.
    fn applied(self, f: &Field) -> (r: Result<Self, (Self, WireError)>)
        ensures
            match Self::spec_apply(self@, f@) {
                Ok(v) => r matches Ok(m) && m@ == v,
                Err(e) => r matches Err((m, x)) && x == e && m@ == self@,
            },
    {
        if f.number <= 6 {
            self.applied_0(f)
        } else if f.number <= 14 {
            self.applied_1(f)
        } else {
            self.applied_2(f)
        }
    }

    /// `applied`, for the records numbered up to 6.
    fn applied_0(self, f: &Field) -> (r: Result<Self, (Self, WireError)>)
        requires
            f.number <= 6,
        ensures
            match Self::spec_apply(self@, f@) {
                Ok(v) => r matches Ok(m) && m@ == v,
                Err(e) => r matches Err((m, x)) && x == e && m@ == self@,
            },
    {
        match f.number {
            1 => match read_packed_fixed64(&f.value) {
                Ok(xs) => {
                    let mut m = self;
                    let mut xs = xs;
                    m.publishedfileids.append(&mut xs);
                    Ok(m)
                },
                Err(e) => Err((self, e)),
            },
            2 => match read_bool(&f.value) {
                Ok(x) => Ok(Self { includetags: Some(x), ..self }),
                Err(e) => Err((self, e)),
            },
            3 => match read_bool(&f.value) {
                Ok(x) => Ok(Self { includeadditionalpreviews: Some(x), ..self }),
                Err(e) => Err((self, e)),
            },
            4 => match read_bool(&f.value) {
                Ok(x) => Ok(Self { includechildren: Some(x), ..self }),
                Err(e) => Err((self, e)),
            },
            5 => match read_bool(&f.value) {
                Ok(x) => Ok(Self { includekvtags: Some(x), ..self }),
                Err(e) => Err((self, e)),
            },
            6 => match read_bool(&f.value) {
                Ok(x) => Ok(Self { includevotes: Some(x), ..self }),
                Err(e) => Err((self, e)),
            },
            _ => Ok(self),
        }
    }

    /// `applied`, for the records numbered from 7 to 14.
    fn applied_1(self, f: &Field) -> (r: Result<Self, (Self, WireError)>)
        requires
            6 < f.number,
            f.number <= 14,
        ensures
            match Self::spec_apply(self@, f@) {
                Ok(v) => r matches Ok(m) && m@ == v,
                Err(e) => r matches Err((m, x)) && x == e && m@ == self@,
            },
    {
        match f.number {
            8 => match read_bool(&f.value) {
                Ok(x) => Ok(Self { short_description: Some(x), ..self }),
                Err(e) => Err((self, e)),
            },
            10 => match read_bool(&f.value) {
                Ok(x) => Ok(Self { includeforsaledata: Some(x), ..self }),
                Err(e) => Err((self, e)),
            },
            11 => match read_bool(&f.value) {
                Ok(x) => Ok(Self { includemetadata: Some(x), ..self }),
                Err(e) => Err((self, e)),
            },
            12 => match read_i32(&f.value) {
                Ok(x) => Ok(Self { language: Some(x), ..self }),
                Err(e) => Err((self, e)),
            },
            13 => match read_u32(&f.value) {
                Ok(x) => Ok(Self { return_playtime_stats: Some(x), ..self }),
                Err(e) => Err((self, e)),
            },
            14 => match read_u32(&f.value) {
                Ok(x) => Ok(Self { appid: Some(x), ..self }),
                Err(e) => Err((self, e)),
            },
            _ => Ok(self),
        }
    }

    /// `applied`, for the records numbered above 14.
    fn applied_2(self, f: &Field) -> (r: Result<Self, (Self, WireError)>)
        requires
            14 < f.number,
        ensures
            match Self::spec_apply(self@, f@) {
                Ok(v) => r matches Ok(m) && m@ == v,
                Err(e) => r matches Err((m, x)) && x == e && m@ == self@,
            },
    {
        match f.number {
            15 => match read_bool(&f.value) {
                Ok(x) => Ok(Self { strip_description_bbcode: Some(x), ..self }),
                Err(e) => Err((self, e)),
            },
            16 => match read_i32(&f.value) {
                Ok(x) => Ok(Self { desired_revision: Some(crate::steammessages_publishedfile_steamclient::EPublishedFileRevision(x)), ..self }),
                Err(e) => Err((self, e)),
            },
            17 => match read_bool(&f.value) {
                Ok(x) => Ok(Self { includereactions: Some(x), ..self }),
                Err(e) => Err((self, e)),
            },
            18 => match read_bool(&f.value) {
                Ok(x) => Ok(Self { admin_query: Some(x), ..self }),
                Err(e) => Err((self, e)),
            },
            _ => Ok(self),
        }
    }

    /// Reads the records `bytes` holds into this message, in order. When a record does
    /// not parse or is refused, the reading stops there: the message keeps what the
    /// records before it gave, and the error is returned.
    pub fn merge(&mut self, bytes: &[u8]) -> (r: Result<(), WireError>)
        ensures
            final(self)@ == merge_run(old(self)@, bytes@, Self::apply_fn()).0,
            r == match merge_run(old(self)@, bytes@, Self::apply_fn()).1 {
                None => Ok::<(), WireError>(()),
                Some(e) => Err::<(), WireError>(e),
            },
    {
        let ghost total = merge_run(self@, bytes@, Self::apply_fn());
        let mut cur = Self::default();
        std::mem::swap(&mut cur, self);
        let mut pos: usize = 0;
        assert(bytes@.skip(0) =~= bytes@);
        while pos < bytes.len()
            invariant
                pos <= bytes@.len(),
                total == merge_run(old(self)@, bytes@, Self::apply_fn()),
                merge_run(cur@, bytes@.skip(pos as int), Self::apply_fn()) == total,
            decreases bytes@.len() - pos,
        {
            let ghost s = bytes@.skip(pos as int);
            proof {
                lemma_merge_run_step(cur@, s, Self::apply_fn());
                lemma_parse_field_len(s);
            }
            match read_field(bytes, pos) {
                Ok((f, end)) => {
                    assert(bytes@.skip(end as int) =~= s.skip((end - pos) as int));
                    match cur.applied(&f) {
                        Ok(m) => {
                            cur = m;
                        },
                        Err((m, e)) => {
                            *self = m;
                            return Err(e);
                        },
                    }
                    pos = end;
                },
                Err(e) => {
                    *self = cur;
                    return Err(e);
                },
            }
        }
        assert(bytes@.skip(pos as int) =~= Seq::<u8>::empty());
        proof {
            lemma_merge_run_empty(cur@, Self::apply_fn());
        }
        *self = cur;
        Ok(())
    }

    /// Decodes a message from its encoding.
    pub fn decode(bytes: &[u8]) -> (r: Result<Self, WireError>)
        ensures
            match Self::spec_decode(bytes@) {
                Ok(v) => r matches Ok(m) && m@ == v,
                Err(e) => r matches Err(x) && x == e,
            },
    {
        proof {
            reveal(CPublishedFile_GetDetails_Request::spec_decode);
        }
        let mut m = Self::default();
        match m.merge(bytes) {
            Ok(()) => Ok(m),
            Err(e) => Err(e),
        }
    }

    /// The encoding of this message.
    pub fn encode_to_vec(&self) -> (r: Vec<u8>)
        ensures
            r@ == Self::spec_encode(self@),
    {
        let ghost v = self@;
        let mut out: Vec<u8> = Vec::new();
        let ghost p0 = Seq::<SpecField>::empty();
        put_rep_fixed64(&mut out, 1, &self.publishedfileids);
        let ghost p1 = p0 + rep_fixed64(1, v.publishedfileids);
        proof {
            lemma_fields_bytes_concat(p0, rep_fixed64(1, v.publishedfileids));
        }
        put_opt_bool(&mut out, 2, self.includetags);
        let ghost p2 = p1 + opt_bool(2, v.includetags);
        proof {
            lemma_fields_bytes_concat(p1, opt_bool(2, v.includetags));
        }
        put_opt_bool(&mut out, 3, self.includeadditionalpreviews);
        let ghost p3 = p2 + opt_bool(3, v.includeadditionalpreviews);
        proof {
            lemma_fields_bytes_concat(p2, opt_bool(3, v.includeadditionalpreviews));
        }
        put_opt_bool(&mut out, 4, self.includechildren);
        let ghost p4 = p3 + opt_bool(4, v.includechildren);
        proof {
            lemma_fields_bytes_concat(p3, opt_bool(4, v.includechildren));
        }
        put_opt_bool(&mut out, 5, self.includekvtags);
        let ghost p5 = p4 + opt_bool(5, v.includekvtags);
        proof {
            lemma_fields_bytes_concat(p4, opt_bool(5, v.includekvtags));
        }
        put_opt_bool(&mut out, 6, self.includevotes);
        let ghost p6 = p5 + opt_bool(6, v.includevotes);
        proof {
            lemma_fields_bytes_concat(p5, opt_bool(6, v.includevotes));
        }
        put_opt_bool(&mut out, 8, self.short_description);
        let ghost p7 = p6 + opt_bool(8, v.short_description);
        proof {
            lemma_fields_bytes_concat(p6, opt_bool(8, v.short_description));
        }
        put_opt_bool(&mut out, 10, self.includeforsaledata);
        let ghost p8 = p7 + opt_bool(10, v.includeforsaledata);
        proof {
            lemma_fields_bytes_concat(p7, opt_bool(10, v.includeforsaledata));
        }
        put_opt_bool(&mut out, 11, self.includemetadata);
        let ghost p9 = p8 + opt_bool(11, v.includemetadata);
        proof {
            lemma_fields_bytes_concat(p8, opt_bool(11, v.includemetadata));
        }
        put_opt_i32(&mut out, 12, self.language);
        let ghost p10 = p9 + opt_i32(12, v.language);
        proof {
            lemma_fields_bytes_concat(p9, opt_i32(12, v.language));
        }
        put_opt_u32(&mut out, 13, self.return_playtime_stats);
        let ghost p11 = p10 + opt_u32(13, v.return_playtime_stats);
        proof {
            lemma_fields_bytes_concat(p10, opt_u32(13, v.return_playtime_stats));
        }
        put_opt_u32(&mut out, 14, self.appid);
        let ghost p12 = p11 + opt_u32(14, v.appid);
        proof {
            lemma_fields_bytes_concat(p11, opt_u32(14, v.appid));
        }
        put_opt_bool(&mut out, 15, self.strip_description_bbcode);
        let ghost p13 = p12 + opt_bool(15, v.strip_description_bbcode);
        proof {
            lemma_fields_bytes_concat(p12, opt_bool(15, v.strip_description_bbcode));
        }
        put_opt_i32(&mut out, 16, match self.desired_revision { Some(e) => Some(e.0), None => None });
        let ghost p14 = p13 + opt_i32(16, v.desired_revision);
        proof {
            lemma_fields_bytes_concat(p13, opt_i32(16, v.desired_revision));
        }
        put_opt_bool(&mut out, 17, self.includereactions);
        let ghost p15 = p14 + opt_bool(17, v.includereactions);
        proof {
            lemma_fields_bytes_concat(p14, opt_bool(17, v.includereactions));
        }
        put_opt_bool(&mut out, 18, self.admin_query);
        let ghost p16 = p15 + opt_bool(18, v.admin_query);
        proof {
            lemma_fields_bytes_concat(p15, opt_bool(18, v.admin_query));
        }
        proof {
            reveal(CPublishedFile_GetDetails_Request::spec_encode);
        }
        assert(p16 == Self::spec_fields(v));
        out
    }

    /// Appends the encoding of this message to `out`.
    pub fn encode_raw(&self, out: &mut Vec<u8>)
        ensures
            final(out)@ == old(out)@ + Self::spec_encode(self@),
    {
        let mut b = self.encode_to_vec();
        out.append(&mut b);
    }

    /// The first `k` fields of `v`, the others as a fresh message has them.
    #[verifier::opaque]
    pub open spec fn spec_prefix(v: SpecCPublishedFile_GetDetails_Request, k: int) -> SpecCPublishedFile_GetDetails_Request {
        SpecCPublishedFile_GetDetails_Request {
            publishedfileids: if 1 <= k { v.publishedfileids } else { Seq::empty() },
            includetags: if 2 <= k { v.includetags } else { None },
            includeadditionalpreviews: if 3 <= k { v.includeadditionalpreviews } else { None },
            includechildren: if 4 <= k { v.includechildren } else { None },
            includekvtags: if 5 <= k { v.includekvtags } else { None },
            includevotes: if 6 <= k { v.includevotes } else { None },
            short_description: if 7 <= k { v.short_description } else { None },
            includeforsaledata: if 8 <= k { v.includeforsaledata } else { None },
            includemetadata: if 9 <= k { v.includemetadata } else { None },
            language: if 10 <= k { v.language } else { None },
            return_playtime_stats: if 11 <= k { v.return_playtime_stats } else { None },
            appid: if 12 <= k { v.appid } else { None },
            strip_description_bbcode: if 13 <= k { v.strip_description_bbcode } else { None },
            desired_revision: if 14 <= k { v.desired_revision } else { None },
            includereactions: if 15 <= k { v.includereactions } else { None },
            admin_query: if 16 <= k { v.admin_query } else { None },
        }
    }

    /// Reading field 1 back, after the fields before it.
    proof fn lemma_field_publishedfileids(v: SpecCPublishedFile_GetDetails_Request)
        ensures
            fold_fields(Self::spec_prefix(v, 0), rep_fixed64(1, v.publishedfileids), Self::apply_fn())
                == Ok::<SpecCPublishedFile_GetDetails_Request, WireError>(Self::spec_prefix(v, 1)),
    {
        reveal(CPublishedFile_GetDetails_Request::spec_prefix);
        reveal(rep_fixed64);
        let apply = Self::apply_fn();
        let s = Self::spec_prefix(v, 0);
        let l = rep_fixed64(1, v.publishedfileids);
        let xs = v.publishedfileids;
        let st = Seq::new((xs.len() + 1) as nat, |j: int| SpecCPublishedFile_GetDetails_Request { publishedfileids: xs.take(j), ..s });
        assert forall|j: int| 0 <= j < l.len() implies #[trigger] apply(st[j], l[j]) == Ok::<SpecCPublishedFile_GetDetails_Request, WireError>(st[j + 1]) by {
            lemma_u64_roundtrip(xs[j]);
            assert(xs.take(j) + seq![xs[j]] =~= xs.take(j + 1));
        }
        lemma_fold_chain(l, st, apply);
        assert(xs.take(0) =~= Seq::<u64>::empty());
        assert(xs.take(xs.len() as int) =~= xs);
        assert(st[0] == s);
        assert(st[xs.len() as int] == Self::spec_prefix(v, 1));
    }

    /// Reading field 2 back, after the fields before it.
    proof fn lemma_field_includetags(v: SpecCPublishedFile_GetDetails_Request)
        ensures
            fold_fields(Self::spec_prefix(v, 1), opt_bool(2, v.includetags), Self::apply_fn())
                == Ok::<SpecCPublishedFile_GetDetails_Request, WireError>(Self::spec_prefix(v, 2)),
    {
        reveal(CPublishedFile_GetDetails_Request::spec_prefix);
        reveal(opt_bool);
        let apply = Self::apply_fn();
        let s = Self::spec_prefix(v, 1);
        lemma_fold_opt(s, 2, match v.includetags { Some(x) => Some(enc_bool(x)), None => None }, apply);
        assert(SpecCPublishedFile_GetDetails_Request { includetags: v.includetags, ..s } == Self::spec_prefix(v, 2));
    }

    /// Reading field 3 back, after the fields before it.
    proof fn lemma_field_includeadditionalpreviews(v: SpecCPublishedFile_GetDetails_Request)
        ensures
            fold_fields(Self::spec_prefix(v, 2), opt_bool(3, v.includeadditionalpreviews), Self::apply_fn())
                == Ok::<SpecCPublishedFile_GetDetails_Request, WireError>(Self::spec_prefix(v, 3)),
    {
        reveal(CPublishedFile_GetDetails_Request::spec_prefix);
        reveal(opt_bool);
        let apply = Self::apply_fn();
        let s = Self::spec_prefix(v, 2);
        lemma_fold_opt(s, 3, match v.includeadditionalpreviews { Some(x) => Some(enc_bool(x)), None => None }, apply);
        assert(SpecCPublishedFile_GetDetails_Request { includeadditionalpreviews: v.includeadditionalpreviews, ..s } == Self::spec_prefix(v, 3));
    }

    /// Reading field 4 back, after the fields before it.
    proof fn lemma_field_includechildren(v: SpecCPublishedFile_GetDetails_Request)
        ensures
            fold_fields(Self::spec_prefix(v, 3), opt_bool(4, v.includechildren), Self::apply_fn())
                == Ok::<SpecCPublishedFile_GetDetails_Request, WireError>(Self::spec_prefix(v, 4)),
    {
        reveal(CPublishedFile_GetDetails_Request::spec_prefix);
        reveal(opt_bool);
        let apply = Self::apply_fn();
        let s = Self::spec_prefix(v, 3);
        lemma_fold_opt(s, 4, match v.includechildren { Some(x) => Some(enc_bool(x)), None => None }, apply);
        assert(SpecCPublishedFile_GetDetails_Request { includechildren: v.includechildren, ..s } == Self::spec_prefix(v, 4));
    }

    /// Reading field 5 back, after the fields before it.
    proof fn lemma_field_includekvtags(v: SpecCPublishedFile_GetDetails_Request)
        ensures
            fold_fields(Self::spec_prefix(v, 4), opt_bool(5, v.includekvtags), Self::apply_fn())
                == Ok::<SpecCPublishedFile_GetDetails_Request, WireError>(Self::spec_prefix(v, 5)),
    {
        reveal(CPublishedFile_GetDetails_Request::spec_prefix);
        reveal(opt_bool);
        let apply = Self::apply_fn();
        let s = Self::spec_prefix(v, 4);
        lemma_fold_opt(s, 5, match v.includekvtags { Some(x) => Some(enc_bool(x)), None => None }, apply);
        assert(SpecCPublishedFile_GetDetails_Request { includekvtags: v.includekvtags, ..s } == Self::spec_prefix(v, 5));
    }

    /// Reading field 6 back, after the fields before it.
    proof fn lemma_field_includevotes(v: SpecCPublishedFile_GetDetails_Request)
        ensures
            fold_fields(Self::spec_prefix(v, 5), opt_bool(6, v.includevotes), Self::apply_fn())
                == Ok::<SpecCPublishedFile_GetDetails_Request, WireError>(Self::spec_prefix(v, 6)),
    {
        reveal(CPublishedFile_GetDetails_Request::spec_prefix);
        reveal(opt_bool);
        let apply = Self::apply_fn();
        let s = Self::spec_prefix(v, 5);
        lemma_fold_opt(s, 6, match v.includevotes { Some(x) => Some(enc_bool(x)), None => None }, apply);
        assert(SpecCPublishedFile_GetDetails_Request { includevotes: v.includevotes, ..s } == Self::spec_prefix(v, 6));
    }

    /// Reading field 8 back, after the fields before it.
    proof fn lemma_field_short_description(v: SpecCPublishedFile_GetDetails_Request)
        ensures
            fold_fields(Self::spec_prefix(v, 6), opt_bool(8, v.short_description), Self::apply_fn())
                == Ok::<SpecCPublishedFile_GetDetails_Request, WireError>(Self::spec_prefix(v, 7)),
    {
        reveal(CPublishedFile_GetDetails_Request::spec_prefix);
        reveal(opt_bool);
        let apply = Self::apply_fn();
        let s = Self::spec_prefix(v, 6);
        lemma_fold_opt(s, 8, match v.short_description { Some(x) => Some(enc_bool(x)), None => None }, apply);
        assert(SpecCPublishedFile_GetDetails_Request { short_description: v.short_description, ..s } == Self::spec_prefix(v, 7));
    }

    /// Reading field 10 back, after the fields before it.
    proof fn lemma_field_includeforsaledata(v: SpecCPublishedFile_GetDetails_Request)
        ensures
            fold_fields(Self::spec_prefix(v, 7), opt_bool(10, v.includeforsaledata), Self::apply_fn())
                == Ok::<SpecCPublishedFile_GetDetails_Request, WireError>(Self::spec_prefix(v, 8)),
    {
        reveal(CPublishedFile_GetDetails_Request::spec_prefix);
        reveal(opt_bool);
        let apply = Self::apply_fn();
        let s = Self::spec_prefix(v, 7);
        lemma_fold_opt(s, 10, match v.includeforsaledata { Some(x) => Some(enc_bool(x)), None => None }, apply);
        assert(SpecCPublishedFile_GetDetails_Request { includeforsaledata: v.includeforsaledata, ..s } == Self::spec_prefix(v, 8));
    }

    /// Reading field 11 back, after the fields before it.
    proof fn lemma_field_includemetadata(v: SpecCPublishedFile_GetDetails_Request)
        ensures
            fold_fields(Self::spec_prefix(v, 8), opt_bool(11, v.includemetadata), Self::apply_fn())
                == Ok::<SpecCPublishedFile_GetDetails_Request, WireError>(Self::spec_prefix(v, 9)),
    {
        reveal(CPublishedFile_GetDetails_Request::spec_prefix);
        reveal(opt_bool);
        let apply = Self::apply_fn();
        let s = Self::spec_prefix(v, 8);
        lemma_fold_opt(s, 11, match v.includemetadata { Some(x) => Some(enc_bool(x)), None => None }, apply);
        assert(SpecCPublishedFile_GetDetails_Request { includemetadata: v.includemetadata, ..s } == Self::spec_prefix(v, 9));
    }

    /// Reading field 12 back, after the fields before it.
    proof fn lemma_field_language(v: SpecCPublishedFile_GetDetails_Request)
        ensures
            fold_fields(Self::spec_prefix(v, 9), opt_i32(12, v.language), Self::apply_fn())
                == Ok::<SpecCPublishedFile_GetDetails_Request, WireError>(Self::spec_prefix(v, 10)),
    {
        reveal(CPublishedFile_GetDetails_Request::spec_prefix);
        reveal(opt_i32);
        let apply = Self::apply_fn();
        let s = Self::spec_prefix(v, 9);
        lemma_fold_opt(s, 12, match v.language { Some(x) => Some(enc_i32(x)), None => None }, apply);
        if let Some(x) = v.language {
            lemma_i32_roundtrip(x);
        }
        assert(SpecCPublishedFile_GetDetails_Request { language: v.language, ..s } == Self::spec_prefix(v, 10));
    }

    /// Reading field 13 back, after the fields before it.
    proof fn lemma_field_return_playtime_stats(v: SpecCPublishedFile_GetDetails_Request)
        ensures
            fold_fields(Self::spec_prefix(v, 10), opt_u32(13, v.return_playtime_stats), Self::apply_fn())
                == Ok::<SpecCPublishedFile_GetDetails_Request, WireError>(Self::spec_prefix(v, 11)),
    {
        reveal(CPublishedFile_GetDetails_Request::spec_prefix);
        reveal(opt_u32);
        let apply = Self::apply_fn();
        let s = Self::spec_prefix(v, 10);
        lemma_fold_opt(s, 13, match v.return_playtime_stats { Some(x) => Some(enc_u32(x)), None => None }, apply);
        if let Some(x) = v.return_playtime_stats {
            lemma_u32_roundtrip(x);
        }
        assert(SpecCPublishedFile_GetDetails_Request { return_playtime_stats: v.return_playtime_stats, ..s } == Self::spec_prefix(v, 11));
    }

    /// Reading field 14 back, after the fields before it.
    proof fn lemma_field_appid(v: SpecCPublishedFile_GetDetails_Request)
        ensures
            fold_fields(Self::spec_prefix(v, 11), opt_u32(14, v.appid), Self::apply_fn())
                == Ok::<SpecCPublishedFile_GetDetails_Request, WireError>(Self::spec_prefix(v, 12)),
    {
        reveal(CPublishedFile_GetDetails_Request::spec_prefix);
        reveal(opt_u32);
        let apply = Self::apply_fn();
        let s = Self::spec_prefix(v, 11);
        lemma_fold_opt(s, 14, match v.appid { Some(x) => Some(enc_u32(x)), None => None }, apply);
        if let Some(x) = v.appid {
            lemma_u32_roundtrip(x);
        }
        assert(SpecCPublishedFile_GetDetails_Request { appid: v.appid, ..s } == Self::spec_prefix(v, 12));
    }

    /// Reading field 15 back, after the fields before it.
    proof fn lemma_field_strip_description_bbcode(v: SpecCPublishedFile_GetDetails_Request)
        ensures
            fold_fields(Self::spec_prefix(v, 12), opt_bool(15, v.strip_description_bbcode), Self::apply_fn())
                == Ok::<SpecCPublishedFile_GetDetails_Request, WireError>(Self::spec_prefix(v, 13)),
    {
        reveal(CPublishedFile_GetDetails_Request::spec_prefix);
        reveal(opt_bool);
        let apply = Self::apply_fn();
        let s = Self::spec_prefix(v, 12);
        lemma_fold_opt(s, 15, match v.strip_description_bbcode { Some(x) => Some(enc_bool(x)), None => None }, apply);
        assert(SpecCPublishedFile_GetDetails_Request { strip_description_bbcode: v.strip_description_bbcode, ..s } == Self::spec_prefix(v, 13));
    }

    /// Reading field 16 back, after the fields before it.
    proof fn lemma_field_desired_revision(v: SpecCPublishedFile_GetDetails_Request)
        ensures
            fold_fields(Self::spec_prefix(v, 13), opt_i32(16, v.desired_revision), Self::apply_fn())
                == Ok::<SpecCPublishedFile_GetDetails_Request, WireError>(Self::spec_prefix(v, 14)),
    {
        reveal(CPublishedFile_GetDetails_Request::spec_prefix);
        reveal(opt_i32);
        let apply = Self::apply_fn();
        let s = Self::spec_prefix(v, 13);
        lemma_fold_opt(s, 16, match v.desired_revision { Some(x) => Some(enc_i32(x)), None => None }, apply);
        if let Some(x) = v.desired_revision {
            lemma_i32_roundtrip(x);
        }
        assert(SpecCPublishedFile_GetDetails_Request { desired_revision: v.desired_revision, ..s } == Self::spec_prefix(v, 14));
    }

    /// Reading field 17 back, after the fields before it.
    proof fn lemma_field_includereactions(v: SpecCPublishedFile_GetDetails_Request)
        ensures
            fold_fields(Self::spec_prefix(v, 14), opt_bool(17, v.includereactions), Self::apply_fn())
                == Ok::<SpecCPublishedFile_GetDetails_Request, WireError>(Self::spec_prefix(v, 15)),
    {
        reveal(CPublishedFile_GetDetails_Request::spec_prefix);
        reveal(opt_bool);
        let apply = Self::apply_fn();
        let s = Self::spec_prefix(v, 14);
        lemma_fold_opt(s, 17, match v.includereactions { Some(x) => Some(enc_bool(x)), None => None }, apply);
        assert(SpecCPublishedFile_GetDetails_Request { includereactions: v.includereactions, ..s } == Self::spec_prefix(v, 15));
    }

    /// Reading field 18 back, after the fields before it.
    proof fn lemma_field_admin_query(v: SpecCPublishedFile_GetDetails_Request)
        ensures
            fold_fields(Self::spec_prefix(v, 15), opt_bool(18, v.admin_query), Self::apply_fn())
                == Ok::<SpecCPublishedFile_GetDetails_Request, WireError>(Self::spec_prefix(v, 16)),
    {
        reveal(CPublishedFile_GetDetails_Request::spec_prefix);
        reveal(opt_bool);
        let apply = Self::apply_fn();
        let s = Self::spec_prefix(v, 15);
        lemma_fold_opt(s, 18, match v.admin_query { Some(x) => Some(enc_bool(x)), None => None }, apply);
        assert(SpecCPublishedFile_GetDetails_Request { admin_query: v.admin_query, ..s } == Self::spec_prefix(v, 16));
    }

    /// Whether this message declares field number `n`.
    pub open spec fn declares(n: u32) -> bool {
        n == 1 || n == 2 || n == 3 || n == 4 || n == 5 || n == 6 || n == 8 || n == 10 || n == 11 || n == 12 || n == 13 || n == 14 || n == 15 || n == 16 || n == 17 || n == 18
    }

    /// A record with a number this message does not declare is passed over: well-formed
    /// bytes decode to the same message with such a record after them as without it.
    pub proof fn lemma_unknown_field(bytes: Seq<u8>, f: SpecField)
        requires
            parse_fields(bytes) is Ok,
            field_wf(f),
            !Self::declares(f.number),
        ensures
            Self::spec_decode(bytes + field_bytes(f)) == Self::spec_decode(bytes),
    {
        reveal(CPublishedFile_GetDetails_Request::spec_decode);
        lemma_parse_fields_append(bytes, f);
        let fs = parse_fields(bytes).unwrap();
        let apply = Self::apply_fn();
        lemma_fold_concat(Self::spec_default(), fs, seq![f], apply);
        assert(fs.push(f) =~= fs + seq![f]);
        if let Ok(w) = fold_fields(Self::spec_default(), fs, apply) {
            lemma_fold_single(w, f, apply);
        }
        lemma_merge_run_fold(Self::spec_default(), bytes, apply);
        lemma_merge_run_fold(Self::spec_default(), bytes + field_bytes(f), apply);
    }

    /// Decoding the encoding of a message gives the message back.
    pub proof fn lemma_decode_encode(v: SpecCPublishedFile_GetDetails_Request)
        requires
            Self::spec_encode(v).len() <= u64::MAX,
        ensures
            Self::spec_decode(Self::spec_encode(v)) == Ok::<SpecCPublishedFile_GetDetails_Request, WireError>(v),
    {
        let apply = Self::apply_fn();
        let d = Self::spec_default();
        let p0 = Seq::<SpecField>::empty();
        let l1 = rep_fixed64(1, v.publishedfileids);
        let p1 = p0 + l1;
        let l2 = opt_bool(2, v.includetags);
        let p2 = p1 + l2;
        let l3 = opt_bool(3, v.includeadditionalpreviews);
        let p3 = p2 + l3;
        let l4 = opt_bool(4, v.includechildren);
        let p4 = p3 + l4;
        let l5 = opt_bool(5, v.includekvtags);
        let p5 = p4 + l5;
        let l6 = opt_bool(6, v.includevotes);
        let p6 = p5 + l6;
        let l7 = opt_bool(8, v.short_description);
        let p7 = p6 + l7;
        let l8 = opt_bool(10, v.includeforsaledata);
        let p8 = p7 + l8;
        let l9 = opt_bool(11, v.includemetadata);
        let p9 = p8 + l9;
        let l10 = opt_i32(12, v.language);
        let p10 = p9 + l10;
        let l11 = opt_u32(13, v.return_playtime_stats);
        let p11 = p10 + l11;
        let l12 = opt_u32(14, v.appid);
        let p12 = p11 + l12;
        let l13 = opt_bool(15, v.strip_description_bbcode);
        let p13 = p12 + l13;
        let l14 = opt_i32(16, v.desired_revision);
        let p14 = p13 + l14;
        let l15 = opt_bool(17, v.includereactions);
        let p15 = p14 + l15;
        let l16 = opt_bool(18, v.admin_query);
        let p16 = p15 + l16;
        assert(parse_fields(Self::spec_encode(v)) == Ok::<Seq<SpecField>, WireError>(p16)) by {
            reveal(CPublishedFile_GetDetails_Request::spec_encode);
            assert(numbers_ok(p0) && fields_wf(p0)) by {
                reveal(numbers_ok);
                reveal(fields_wf);
            }
            lemma_rep_fixed64_numbered(1, v.publishedfileids);
            lemma_fields_wf_concat(p0, l1);
            lemma_opt_bool_numbered(2, v.includetags);
            lemma_fields_wf_concat(p1, l2);
            lemma_opt_bool_numbered(3, v.includeadditionalpreviews);
            lemma_fields_wf_concat(p2, l3);
            lemma_opt_bool_numbered(4, v.includechildren);
            lemma_fields_wf_concat(p3, l4);
            lemma_opt_bool_numbered(5, v.includekvtags);
            lemma_fields_wf_concat(p4, l5);
            lemma_opt_bool_numbered(6, v.includevotes);
            lemma_fields_wf_concat(p5, l6);
            lemma_opt_bool_numbered(8, v.short_description);
            lemma_fields_wf_concat(p6, l7);
            lemma_opt_bool_numbered(10, v.includeforsaledata);
            lemma_fields_wf_concat(p7, l8);
            lemma_opt_bool_numbered(11, v.includemetadata);
            lemma_fields_wf_concat(p8, l9);
            lemma_opt_i32_numbered(12, v.language);
            lemma_fields_wf_concat(p9, l10);
            lemma_opt_u32_numbered(13, v.return_playtime_stats);
            lemma_fields_wf_concat(p10, l11);
            lemma_opt_u32_numbered(14, v.appid);
            lemma_fields_wf_concat(p11, l12);
            lemma_opt_bool_numbered(15, v.strip_description_bbcode);
            lemma_fields_wf_concat(p12, l13);
            lemma_opt_i32_numbered(16, v.desired_revision);
            lemma_fields_wf_concat(p13, l14);
            lemma_opt_bool_numbered(17, v.includereactions);
            lemma_fields_wf_concat(p14, l15);
            lemma_opt_bool_numbered(18, v.admin_query);
            lemma_fields_wf_concat(p15, l16);
            assert(p16 == Self::spec_fields(v));
            lemma_fields_wf_from_len(p16);
            lemma_fields_roundtrip(p16);
        }
        assert(Self::spec_prefix(v, 0) == d) by {
            reveal(CPublishedFile_GetDetails_Request::spec_prefix);
        }
        lemma_fold_empty(d, apply);
        lemma_fold_concat(d, p0, l1, apply);
        Self::lemma_field_publishedfileids(v);
        lemma_fold_concat(d, p1, l2, apply);
        Self::lemma_field_includetags(v);
        lemma_fold_concat(d, p2, l3, apply);
        Self::lemma_field_includeadditionalpreviews(v);
        lemma_fold_concat(d, p3, l4, apply);
        Self::lemma_field_includechildren(v);
        lemma_fold_concat(d, p4, l5, apply);
        Self::lemma_field_includekvtags(v);
        lemma_fold_concat(d, p5, l6, apply);
        Self::lemma_field_includevotes(v);
        lemma_fold_concat(d, p6, l7, apply);
        Self::lemma_field_short_description(v);
        lemma_fold_concat(d, p7, l8, apply);
        Self::lemma_field_includeforsaledata(v);
        lemma_fold_concat(d, p8, l9, apply);
        Self::lemma_field_includemetadata(v);
        lemma_fold_concat(d, p9, l10, apply);
        Self::lemma_field_language(v);
        lemma_fold_concat(d, p10, l11, apply);
        Self::lemma_field_return_playtime_stats(v);
        lemma_fold_concat(d, p11, l12, apply);
        Self::lemma_field_appid(v);
        lemma_fold_concat(d, p12, l13, apply);
        Self::lemma_field_strip_description_bbcode(v);
        lemma_fold_concat(d, p13, l14, apply);
        Self::lemma_field_desired_revision(v);
        lemma_fold_concat(d, p14, l15, apply);
        Self::lemma_field_includereactions(v);
        lemma_fold_concat(d, p15, l16, apply);
        Self::lemma_field_admin_query(v);
        assert(Self::spec_prefix(v, 16) == v) by {
            reveal(CPublishedFile_GetDetails_Request::spec_prefix);
        }
        lemma_merge_run_fold(d, Self::spec_encode(v), apply);
        assert(Self::spec_decode(Self::spec_encode(v)) == Ok::<SpecCPublishedFile_GetDetails_Request, WireError>(v)) by {
            reveal(CPublishedFile_GetDetails_Request::spec_decode);
        }
    }
}

/// `PublishedFileAuthorSnapshot`, as Valve's schema declares it.
#[derive(Debug, Clone, PartialEq)]
pub struct PublishedFileAuthorSnapshot {
    /// Field 1.
    pub timestamp: Option<u32>,
    /// Field 2.
    pub game_branch_min: Option<String>,
    /// Field 3.
    pub game_branch_max: Option<String>,
    /// Field 4.
    pub manifestid: Option<u64>,
}

/// What a `PublishedFileAuthorSnapshot` holds, as mathematical values.
#[verifier::ext_equal]
pub struct SpecPublishedFileAuthorSnapshot {
    pub timestamp: Option<u32>,
    pub game_branch_min: Option<Seq<char>>,
    pub game_branch_max: Option<Seq<char>>,
    pub manifestid: Option<u64>,
}

impl View for PublishedFileAuthorSnapshot {
    type V = SpecPublishedFileAuthorSnapshot;

    open spec fn view(&self) -> SpecPublishedFileAuthorSnapshot {
        SpecPublishedFileAuthorSnapshot {
            timestamp: self.timestamp,
            game_branch_min: opt_string_view(self.game_branch_min),
            game_branch_max: opt_string_view(self.game_branch_max),
            manifestid: self.manifestid,
        }
    }
}

impl Default for PublishedFileAuthorSnapshot {
    fn default() -> (r: Self)
        ensures
            r@ == PublishedFileAuthorSnapshot::spec_default(),
    {
        PublishedFileAuthorSnapshot {
            timestamp: None,
            game_branch_min: None,
            game_branch_max: None,
            manifestid: None,
        }
    }
}

impl PublishedFileAuthorSnapshot {
    pub open spec fn spec_default() -> SpecPublishedFileAuthorSnapshot {
        SpecPublishedFileAuthorSnapshot {
            timestamp: None,
            game_branch_min: None,
            game_branch_max: None,
            manifestid: None,
        }
    }

    /// The records a `PublishedFileAuthorSnapshot` is written as, in field order.
    pub open spec fn spec_fields(v: SpecPublishedFileAuthorSnapshot) -> Seq<SpecField> {
        Seq::<SpecField>::empty()
            + opt_u32(1, v.timestamp)
            + opt_string(2, v.game_branch_min)
            + opt_string(3, v.game_branch_max)
            + opt_fixed64(4, v.manifestid)
    }

    #[verifier::opaque]
    pub open spec fn spec_encode(v: SpecPublishedFileAuthorSnapshot) -> Seq<u8> {
        fields_bytes(Self::spec_fields(v))
    }

    /// What one record does to the message: a declared number sets or extends its
    /// field, any other number is left alone.
    pub open spec fn spec_apply(v: SpecPublishedFileAuthorSnapshot, f: SpecField) -> Result<SpecPublishedFileAuthorSnapshot, WireError> {
        match f.number {
            1 => match dec_u32(f.value) {
                Ok(x) => Ok(SpecPublishedFileAuthorSnapshot { timestamp: Some(x), ..v }),
                Err(e) => Err(e),
            },
            2 => match dec_string(f.value) {
                Ok(x) => Ok(SpecPublishedFileAuthorSnapshot { game_branch_min: Some(x), ..v }),
                Err(e) => Err(e),
            },
            3 => match dec_string(f.value) {
                Ok(x) => Ok(SpecPublishedFileAuthorSnapshot { game_branch_max: Some(x), ..v }),
                Err(e) => Err(e),
            },
            4 => match dec_fixed64(f.value) {
                Ok(x) => Ok(SpecPublishedFileAuthorSnapshot { manifestid: Some(x), ..v }),
                Err(e) => Err(e),
            },
            _ => Ok(v),
        }
    }

    pub open spec fn apply_fn() -> spec_fn(SpecPublishedFileAuthorSnapshot, SpecField) -> Result<SpecPublishedFileAuthorSnapshot, WireError> {
        |v: SpecPublishedFileAuthorSnapshot, f: SpecField| Self::spec_apply(v, f)
    }

    /// The message `bytes` makes of `v`: its records applied in order, or the error
    /// that stops the reading.
    pub open spec fn spec_merge(v: SpecPublishedFileAuthorSnapshot, bytes: Seq<u8>) -> Result<SpecPublishedFileAuthorSnapshot, WireError> {
        let (w, stop) = merge_run(v, bytes, Self::apply_fn());
        match stop {
            None => Ok(w),
            Some(e) => Err(e),
        }
    }

    #[verifier::opaque]
    pub open spec fn spec_decode(bytes: Seq<u8>) -> Result<SpecPublishedFileAuthorSnapshot, WireError> {
        Self::spec_merge(Self::spec_default(), bytes)
    }

    pub open spec fn view_all(xs: Seq<PublishedFileAuthorSnapshot>) -> Seq<SpecPublishedFileAuthorSnapshot> {
        xs.map_values(|m: PublishedFileAuthorSnapshot| m@)
    }

    pub open spec fn view_opt(o: Option<PublishedFileAuthorSnapshot>) -> Option<SpecPublishedFileAuthorSnapshot> {
        match o {
            Some(m) => Some(m@),
            None => None,
        }
    }

    pub open spec fn spec_encode_all(xs: Seq<SpecPublishedFileAuthorSnapshot>) -> Seq<Seq<u8>> {
        xs.map_values(|m: SpecPublishedFileAuthorSnapshot| Self::spec_encode(m))
    }

    pub open spec fn spec_encode_opt(o: Option<SpecPublishedFileAuthorSnapshot>) -> Option<Seq<u8>> {
        match o {
            Some(m) => Some(Self::spec_encode(m)),
            None => None,
        }
    }

    /// The encoding of each element.
    pub fn encode_all(xs: &Vec<PublishedFileAuthorSnapshot>) -> (r: Vec<Vec<u8>>)
        ensures
            bytes_seq_view(r@) == Self::spec_encode_all(Self::view_all(xs@)),
    {
        let mut out: Vec<Vec<u8>> = Vec::new();
        let mut i: usize = 0;
        while i < xs.len()
            invariant
                i <= xs@.len(),
                out@.len() == i,
                forall|j: int| 0 <= j < i ==> #[trigger] out@[j]@ == Self::spec_encode(xs@[j]@),
            decreases xs@.len() - i,
        {
            let e = xs[i].encode_to_vec();
            out.push(e);
            i = i + 1;
        }
        assert(bytes_seq_view(out@) =~= Self::spec_encode_all(Self::view_all(xs@)));
        out
    }

    /// The encoding of the element, when there is one.
    pub fn encode_opt(o: &Option<PublishedFileAuthorSnapshot>) -> (r: Option<Vec<u8>>)
        ensures
            opt_bytes_view(r) == Self::spec_encode_opt(Self::view_opt(*o)),
    {
        match o {
            Some(m) => Some(m.encode_to_vec()),
            None => None,
        }
    }

    /// This message with one record applied to it, or, when the record is refused,
    /// the message unchanged and the reason.
    fn applied(self, f: &Field) -> (r: Result<Self, (Self, WireError)>)
        ensures
            match Self::spec_apply(self@, f@) {
                Ok(v) => r matches Ok(m) && m@ == v,
                Err(e) => r matches Err((m, x)) && x == e && m@ == self@,
            },
    {
        match f.number {
            1 => match read_u32(&f.value) {
                Ok(x) => Ok(Self { timestamp: Some(x), ..self }),
                Err(e) => Err((self, e)),
            },
            2 => match read_string(&f.value) {
                Ok(x) => Ok(Self { game_branch_min: Some(x), ..self }),
                Err(e) => Err((self, e)),
            },
            3 => match read_string(&f.value) {
                Ok(x) => Ok(Self { game_branch_max: Some(x), ..self }),
                Err(e) => Err((self, e)),
            },
            4 => match read_fixed64(&f.value) {
                Ok(x) => Ok(Self { manifestid: Some(x), ..self }),
                Err(e) => Err((self, e)),
            },
            _ => Ok(self),
        }
    }

    /// Reads the records `bytes` holds into this message, in order. When a record does
    /// not parse or is refused, the reading stops there: the message keeps what the
    /// records before it gave, and the error is returned.
    pub fn merge(&mut self, bytes: &[u8]) -> (r: Result<(), WireError>)
        ensures
            final(self)@ == merge_run(old(self)@, bytes@, Self::apply_fn()).0,
            r == match merge_run(old(self)@, bytes@, Self::apply_fn()).1 {
                None => Ok::<(), WireError>(()),
                Some(e) => Err::<(), WireError>(e),
            },
    {
        let ghost total = merge_run(self@, bytes@, Self::apply_fn());
        let mut cur = Self::default();
        std::mem::swap(&mut cur, self);
        let mut pos: usize = 0;
        assert(bytes@.skip(0) =~= bytes@);
        while pos < bytes.len()
            invariant
                pos <= bytes@.len(),
                total == merge_run(old(self)@, bytes@, Self::apply_fn()),
                merge_run(cur@, bytes@.skip(pos as int), Self::apply_fn()) == total,
            decreases bytes@.len() - pos,
        {
            let ghost s = bytes@.skip(pos as int);
            proof {
                lemma_merge_run_step(cur@, s, Self::apply_fn());
                lemma_parse_field_len(s);
            }
            match read_field(bytes, pos) {
                Ok((f, end)) => {
                    assert(bytes@.skip(end as int) =~= s.skip((end - pos) as int));
                    match cur.applied(&f) {
                        Ok(m) => {
                            cur = m;
                        },
                        Err((m, e)) => {
                            *self = m;
                            return Err(e);
                        },
                    }
                    pos = end;
                },
                Err(e) => {
                    *self = cur;
                    return Err(e);
                },
            }
        }
        assert(bytes@.skip(pos as int) =~= Seq::<u8>::empty());
        proof {
            lemma_merge_run_empty(cur@, Self::apply_fn());
        }
        *self = cur;
        Ok(())
    }

    /// Decodes a message from its encoding.
    pub fn decode(bytes: &[u8]) -> (r: Result<Self, WireError>)
        ensures
            match Self::spec_decode(bytes@) {
                Ok(v) => r matches Ok(m) && m@ == v,
                Err(e) => r matches Err(x) && x == e,
            },
    {
        proof {
            reveal(PublishedFileAuthorSnapshot::spec_decode);
        }
        let mut m = Self::default();
        match m.merge(bytes) {
            Ok(()) => Ok(m),
            Err(e) => Err(e),
        }
    }

    /// The encoding of this message.
    pub fn encode_to_vec(&self) -> (r: Vec<u8>)
        ensures
            r@ == Self::spec_encode(self@),
    {
        let ghost v = self@;
        let mut out: Vec<u8> = Vec::new();
        let ghost p0 = Seq::<SpecField>::empty();
        put_opt_u32(&mut out, 1, self.timestamp);
        let ghost p1 = p0 + opt_u32(1, v.timestamp);
        proof {
            lemma_fields_bytes_concat(p0, opt_u32(1, v.timestamp));
        }
        put_opt_string(&mut out, 2, &self.game_branch_min);
        let ghost p2 = p1 + opt_string(2, v.game_branch_min);
        proof {
            lemma_fields_bytes_concat(p1, opt_string(2, v.game_branch_min));
        }
        put_opt_string(&mut out, 3, &self.game_branch_max);
        let ghost p3 = p2 + opt_string(3, v.game_branch_max);
        proof {
            lemma_fields_bytes_concat(p2, opt_string(3, v.game_branch_max));
        }
        put_opt_fixed64(&mut out, 4, self.manifestid);
        let ghost p4 = p3 + opt_fixed64(4, v.manifestid);
        proof {
            lemma_fields_bytes_concat(p3, opt_fixed64(4, v.manifestid));
        }
        proof {
            reveal(PublishedFileAuthorSnapshot::spec_encode);
        }
        assert(p4 == Self::spec_fields(v));
        out
    }

    /// Appends the encoding of this message to `out`.
    pub fn encode_raw(&self, out: &mut Vec<u8>)
        ensures
            final(out)@ == old(out)@ + Self::spec_encode(self@),
    {
        let mut b = self.encode_to_vec();
        out.append(&mut b);
    }

    /// The first `k` fields of `v`, the others as a fresh message has them.
    #[verifier::opaque]
    pub open spec fn spec_prefix(v: SpecPublishedFileAuthorSnapshot, k: int) -> SpecPublishedFileAuthorSnapshot {
        SpecPublishedFileAuthorSnapshot {
            timestamp: if 1 <= k { v.timestamp } else { None },
            game_branch_min: if 2 <= k { v.game_branch_min } else { None },
            game_branch_max: if 3 <= k { v.game_branch_max } else { None },
            manifestid: if 4 <= k { v.manifestid } else { None },
        }
    }

    /// Reading field 1 back, after the fields before it.
    proof fn lemma_field_timestamp(v: SpecPublishedFileAuthorSnapshot)
        ensures
            fold_fields(Self::spec_prefix(v, 0), opt_u32(1, v.timestamp), Self::apply_fn())
                == Ok::<SpecPublishedFileAuthorSnapshot, WireError>(Self::spec_prefix(v, 1)),
    {
        reveal(PublishedFileAuthorSnapshot::spec_prefix);
        reveal(opt_u32);
        let apply = Self::apply_fn();
        let s = Self::spec_prefix(v, 0);
        lemma_fold_opt(s, 1, match v.timestamp { Some(x) => Some(enc_u32(x)), None => None }, apply);
        if let Some(x) = v.timestamp {
            lemma_u32_roundtrip(x);
        }
        assert(SpecPublishedFileAuthorSnapshot { timestamp: v.timestamp, ..s } == Self::spec_prefix(v, 1));
    }

    /// Reading field 2 back, after the fields before it.
    proof fn lemma_field_game_branch_min(v: SpecPublishedFileAuthorSnapshot)
        ensures
            fold_fields(Self::spec_prefix(v, 1), opt_string(2, v.game_branch_min), Self::apply_fn())
                == Ok::<SpecPublishedFileAuthorSnapshot, WireError>(Self::spec_prefix(v, 2)),
    {
        reveal(PublishedFileAuthorSnapshot::spec_prefix);
        reveal(opt_string);
        let apply = Self::apply_fn();
        let s = Self::spec_prefix(v, 1);
        lemma_fold_opt(s, 2, match v.game_branch_min { Some(x) => Some(enc_string(x)), None => None }, apply);
        if let Some(x) = v.game_branch_min {
            lemma_string_roundtrip(x);
        }
        assert(SpecPublishedFileAuthorSnapshot { game_branch_min: v.game_branch_min, ..s } == Self::spec_prefix(v, 2));
    }

    /// Reading field 3 back, after the fields before it.
    proof fn lemma_field_game_branch_max(v: SpecPublishedFileAuthorSnapshot)
        ensures
            fold_fields(Self::spec_prefix(v, 2), opt_string(3, v.game_branch_max), Self::apply_fn())
                == Ok::<SpecPublishedFileAuthorSnapshot, WireError>(Self::spec_prefix(v, 3)),
    {
        reveal(PublishedFileAuthorSnapshot::spec_prefix);
        reveal(opt_string);
        let apply = Self::apply_fn();
        let s = Self::spec_prefix(v, 2);
        lemma_fold_opt(s, 3, match v.game_branch_max { Some(x) => Some(enc_string(x)), None => None }, apply);
        if let Some(x) = v.game_branch_max {
            lemma_string_roundtrip(x);
        }
        assert(SpecPublishedFileAuthorSnapshot { game_branch_max: v.game_branch_max, ..s } == Self::spec_prefix(v, 3));
    }

    /// Reading field 4 back, after the fields before it.
    proof fn lemma_field_manifestid(v: SpecPublishedFileAuthorSnapshot)
        ensures
            fold_fields(Self::spec_prefix(v, 3), opt_fixed64(4, v.manifestid), Self::apply_fn())
                == Ok::<SpecPublishedFileAuthorSnapshot, WireError>(Self::spec_prefix(v, 4)),
    {
        reveal(PublishedFileAuthorSnapshot::spec_prefix);
        reveal(opt_fixed64);
        let apply = Self::apply_fn();
        let s = Self::spec_prefix(v, 3);
        lemma_fold_opt(s, 4, match v.manifestid { Some(x) => Some(enc_fixed64(x)), None => None }, apply);
        if let Some(x) = v.manifestid {
            lemma_u64_roundtrip(x);
        }
        assert(SpecPublishedFileAuthorSnapshot { manifestid: v.manifestid, ..s } == Self::spec_prefix(v, 4));
    }

    /// Whether this message declares field number `n`.
    pub open spec fn declares(n: u32) -> bool {
        n == 1 || n == 2 || n == 3 || n == 4
    }

    /// A record with a number this message does not declare is passed over: well-formed
    /// bytes decode to the same message with such a record after them as without it.
    pub proof fn lemma_unknown_field(bytes: Seq<u8>, f: SpecField)
        requires
            parse_fields(bytes) is Ok,
            field_wf(f),
            !Self::declares(f.number),
        ensures
            Self::spec_decode(bytes + field_bytes(f)) == Self::spec_decode(bytes),
    {
        reveal(PublishedFileAuthorSnapshot::spec_decode);
        lemma_parse_fields_append(bytes, f);
        let fs = parse_fields(bytes).unwrap();
        let apply = Self::apply_fn();
        lemma_fold_concat(Self::spec_default(), fs, seq![f], apply);
        assert(fs.push(f) =~= fs + seq![f]);
        if let Ok(w) = fold_fields(Self::spec_default(), fs, apply) {
            lemma_fold_single(w, f, apply);
        }
        lemma_merge_run_fold(Self::spec_default(), bytes, apply);
        lemma_merge_run_fold(Self::spec_default(), bytes + field_bytes(f), apply);
    }

    /// Decoding the encoding of a message gives the message back.
    pub proof fn lemma_decode_encode(v: SpecPublishedFileAuthorSnapshot)
        requires
            Self::spec_encode(v).len() <= u64::MAX,
        ensures
            Self::spec_decode(Self::spec_encode(v)) == Ok::<SpecPublishedFileAuthorSnapshot, WireError>(v),
    {
        let apply = Self::apply_fn();
        let d = Self::spec_default();
        let p0 = Seq::<SpecField>::empty();
        let l1 = opt_u32(1, v.timestamp);
        let p1 = p0 + l1;
        let l2 = opt_string(2, v.game_branch_min);
        let p2 = p1 + l2;
        let l3 = opt_string(3, v.game_branch_max);
        let p3 = p2 + l3;
        let l4 = opt_fixed64(4, v.manifestid);
        let p4 = p3 + l4;
        assert(parse_fields(Self::spec_encode(v)) == Ok::<Seq<SpecField>, WireError>(p4)) by {
            reveal(PublishedFileAuthorSnapshot::spec_encode);
            assert(numbers_ok(p0) && fields_wf(p0)) by {
                reveal(numbers_ok);
                reveal(fields_wf);
            }
            lemma_opt_u32_numbered(1, v.timestamp);
            lemma_fields_wf_concat(p0, l1);
            lemma_opt_string_numbered(2, v.game_branch_min);
            lemma_fields_wf_concat(p1, l2);
            lemma_opt_string_numbered(3, v.game_branch_max);
            lemma_fields_wf_concat(p2, l3);
            lemma_opt_fixed64_numbered(4, v.manifestid);
            lemma_fields_wf_concat(p3, l4);
            assert(p4 == Self::spec_fields(v));
            lemma_fields_wf_from_len(p4);
            lemma_fields_roundtrip(p4);
        }
        assert(Self::spec_prefix(v, 0) == d) by {
            reveal(PublishedFileAuthorSnapshot::spec_prefix);
        }
        lemma_fold_empty(d, apply);
        lemma_fold_concat(d, p0, l1, apply);
        Self::lemma_field_timestamp(v);
        lemma_fold_concat(d, p1, l2, apply);
        Self::lemma_field_game_branch_min(v);
        lemma_fold_concat(d, p2, l3, apply);
        Self::lemma_field_game_branch_max(v);
        lemma_fold_concat(d, p3, l4, apply);
        Self::lemma_field_manifestid(v);
        assert(Self::spec_prefix(v, 4) == v) by {
            reveal(PublishedFileAuthorSnapshot::spec_prefix);
        }
        lemma_merge_run_fold(d, Self::spec_encode(v), apply);
        assert(Self::spec_decode(Self::spec_encode(v)) == Ok::<SpecPublishedFileAuthorSnapshot, WireError>(v)) by {
            reveal(PublishedFileAuthorSnapshot::spec_decode);
        }
    }
}

/// `PublishedFileDetails`, as Valve's schema declares it.
#[derive(Debug, Clone, PartialEq)]
pub struct PublishedFileDetails {
    /// Field 1.
    pub result: Option<u32>,
    /// Field 2.
    pub publishedfileid: Option<u64>,
    /// Field 3.
    pub creator: Option<u64>,
    /// Field 4.
    pub creator_appid: Option<u32>,
    /// Field 5.
    pub consumer_appid: Option<u32>,
    /// Field 6.
    pub consumer_shortcutid: Option<u32>,
    /// Field 7.
    pub filename: Option<String>,
    /// Field 8.
    pub file_size: Option<u64>,
    /// Field 9.
    pub preview_file_size: Option<u64>,
    /// Field 10.
    pub file_url: Option<String>,
    /// Field 11.
    pub preview_url: Option<String>,
    /// Field 12.
    pub youtubevideoid: Option<String>,
    /// Field 13.
    pub url: Option<String>,
    /// Field 14.
    pub hcontent_file: Option<u64>,
    /// Field 15.
    pub hcontent_preview: Option<u64>,
    /// Field 16.
    pub title: Option<String>,
    /// Field 17.
    pub file_description: Option<String>,
    /// Field 18.
    pub short_description: Option<String>,
    /// Field 19.
    pub time_created: Option<u32>,
    /// Field 20.
    pub time_updated: Option<u32>,
    /// Field 21.
    pub visibility: Option<u32>,
    /// Field 22.
    pub flags: Option<u32>,
    /// Field 23.
    pub workshop_file: Option<bool>,
    /// Field 24.
    pub workshop_accepted: Option<bool>,
    /// Field 25.
    pub show_subscribe_all: Option<bool>,
    /// Field 26.
    pub num_comments_developer: Option<i32>,
    /// Field 27.
    pub num_comments_public: Option<i32>,
    /// Field 28.
    pub banned: Option<bool>,
    /// Field 29.
    pub ban_reason: Option<String>,
    /// Field 30.
    pub banner: Option<u64>,
    /// Field 31.
    pub can_be_deleted: Option<bool>,
    /// Field 32.
    pub incompatible: Option<bool>,
    /// Field 33.
    pub app_name: Option<String>,
    /// Field 34.
    pub file_type: Option<u32>,
    /// Field 35.
    pub can_subscribe: Option<bool>,
    /// Field 36.
    pub subscriptions: Option<u32>,
    /// Field 37.
    pub favorited: Option<u32>,
    /// Field 38.
    pub followers: Option<u32>,
    /// Field 39.
    pub lifetime_subscriptions: Option<u32>,
    /// Field 40.
    pub lifetime_favorited: Option<u32>,
    /// Field 41.
    pub lifetime_followers: Option<u32>,
    /// Field 62.
    pub lifetime_playtime: Option<u64>,
    /// Field 63.
    pub lifetime_playtime_sessions: Option<u64>,
    /// Field 42.
    pub views: Option<u32>,
    /// Field 43.
    pub image_width: Option<u32>,
    /// Field 44.
    pub image_height: Option<u32>,
    /// Field 45.
    pub image_url: Option<String>,
    /// Field 46.
    pub spoiler_tag: Option<bool>,
    /// Field 47.
    pub shortcutid: Option<u32>,
    /// Field 48.
    pub shortcutname: Option<String>,
    /// Field 49.
    pub num_children: Option<u32>,
    /// Field 50.
    pub num_reports: Option<u32>,
    /// Field 51.
    pub previews: Vec<crate::steammessages_publishedfile_steamclient::published_file_details::Preview>,
    /// Field 52.
    pub tags: Vec<crate::steammessages_publishedfile_steamclient::published_file_details::Tag>,
    /// Field 53.
    pub children: Vec<crate::steammessages_publishedfile_steamclient::published_file_details::Child>,
    /// Field 54.
    pub kvtags: Vec<crate::steammessages_publishedfile_steamclient::published_file_details::KVTag>,
    /// Field 55.
    pub vote_data: Option<crate::steammessages_publishedfile_steamclient::published_file_details::VoteData>,
    /// Field 64.
    pub playtime_stats: Option<crate::steammessages_publishedfile_steamclient::published_file_details::PlaytimeStats>,
    /// Field 56.
    pub time_subscribed: Option<u32>,
    /// Field 57.
    pub for_sale_data: Option<crate::steammessages_publishedfile_steamclient::published_file_details::ForSaleData>,
    /// Field 58.
    pub metadata: Option<String>,
    /// Field 61.
    pub language: Option<i32>,
    /// Field 65.
    pub maybe_inappropriate_sex: Option<bool>,
    /// Field 66.
    pub maybe_inappropriate_violence: Option<bool>,
    /// Field 72.
    pub content_descriptorids: Vec<crate::enums_productinfo::EContentDescriptorID>,
    /// Field 67.
    pub revision_change_number: Option<u64>,
    /// Field 68.
    pub revision: Option<crate::steammessages_publishedfile_steamclient::EPublishedFileRevision>,
    /// Field 69.
    pub available_revisions: Vec<crate::steammessages_publishedfile_steamclient::EPublishedFileRevision>,
    /// Field 70.
    pub reactions: Vec<crate::steammessages_publishedfile_steamclient::published_file_details::Reaction>,
    /// Field 71.
    pub ban_text_check_result: Option<crate::steammessages_base::EBanContentCheckResult>,
    /// Field 73, a `float` carried as its IEEE 754 bit pattern.
    pub search_score: Option<u32>,
    /// Field 74.
    pub external_asset_id: Option<u64>,
    /// Field 75.
    pub author_snapshots: Vec<crate::steammessages_publishedfile_steamclient::PublishedFileAuthorSnapshot>,
}

/// What a `PublishedFileDetails` holds, as mathematical values.
#[verifier::ext_equal]
pub struct SpecPublishedFileDetails {
    pub result: Option<u32>,
    pub publishedfileid: Option<u64>,
    pub creator: Option<u64>,
    pub creator_appid: Option<u32>,
    pub consumer_appid: Option<u32>,
    pub consumer_shortcutid: Option<u32>,
    pub filename: Option<Seq<char>>,
    pub file_size: Option<u64>,
    pub preview_file_size: Option<u64>,
    pub file_url: Option<Seq<char>>,
    pub preview_url: Option<Seq<char>>,
    pub youtubevideoid: Option<Seq<char>>,
    pub url: Option<Seq<char>>,
    pub hcontent_file: Option<u64>,
    pub hcontent_preview: Option<u64>,
    pub title: Option<Seq<char>>,
    pub file_description: Option<Seq<char>>,
    pub short_description: Option<Seq<char>>,
    pub time_created: Option<u32>,
    pub time_updated: Option<u32>,
    pub visibility: Option<u32>,
    pub flags: Option<u32>,
    pub workshop_file: Option<bool>,
    pub workshop_accepted: Option<bool>,
    pub show_subscribe_all: Option<bool>,
    pub num_comments_developer: Option<i32>,
    pub num_comments_public: Option<i32>,
    pub banned: Option<bool>,
    pub ban_reason: Option<Seq<char>>,
    pub banner: Option<u64>,
    pub can_be_deleted: Option<bool>,
    pub incompatible: Option<bool>,
    pub app_name: Option<Seq<char>>,
    pub file_type: Option<u32>,
    pub can_subscribe: Option<bool>,
    pub subscriptions: Option<u32>,
    pub favorited: Option<u32>,
    pub followers: Option<u32>,
    pub lifetime_subscriptions: Option<u32>,
    pub lifetime_favorited: Option<u32>,
    pub lifetime_followers: Option<u32>,
    pub lifetime_playtime: Option<u64>,
    pub lifetime_playtime_sessions: Option<u64>,
    pub views: Option<u32>,
    pub image_width: Option<u32>,
    pub image_height: Option<u32>,
    pub image_url: Option<Seq<char>>,
    pub spoiler_tag: Option<bool>,
    pub shortcutid: Option<u32>,
    pub shortcutname: Option<Seq<char>>,
    pub num_children: Option<u32>,
    pub num_reports: Option<u32>,
    pub previews: Seq<crate::steammessages_publishedfile_steamclient::published_file_details::SpecPreview>,
    pub tags: Seq<crate::steammessages_publishedfile_steamclient::published_file_details::SpecTag>,
    pub children: Seq<crate::steammessages_publishedfile_steamclient::published_file_details::SpecChild>,
    pub kvtags: Seq<crate::steammessages_publishedfile_steamclient::published_file_details::SpecKVTag>,
    pub vote_data: Option<crate::steammessages_publishedfile_steamclient::published_file_details::SpecVoteData>,
    pub playtime_stats: Option<crate::steammessages_publishedfile_steamclient::published_file_details::SpecPlaytimeStats>,
    pub time_subscribed: Option<u32>,
    pub for_sale_data: Option<crate::steammessages_publishedfile_steamclient::published_file_details::SpecForSaleData>,
    pub metadata: Option<Seq<char>>,
    pub language: Option<i32>,
    pub maybe_inappropriate_sex: Option<bool>,
    pub maybe_inappropriate_violence: Option<bool>,
    pub content_descriptorids: Seq<i32>,
    pub revision_change_number: Option<u64>,
    pub revision: Option<i32>,
    pub available_revisions: Seq<i32>,
    pub reactions: Seq<crate::steammessages_publishedfile_steamclient::published_file_details::SpecReaction>,
    pub ban_text_check_result: Option<i32>,
    pub search_score: Option<u32>,
    pub external_asset_id: Option<u64>,
    pub author_snapshots: Seq<crate::steammessages_publishedfile_steamclient::SpecPublishedFileAuthorSnapshot>,
}

impl View for PublishedFileDetails {
    type V = SpecPublishedFileDetails;

    open spec fn view(&self) -> SpecPublishedFileDetails {
        SpecPublishedFileDetails {
            result: self.result,
            publishedfileid: self.publishedfileid,
            creator: self.creator,
            creator_appid: self.creator_appid,
            consumer_appid: self.consumer_appid,
            consumer_shortcutid: self.consumer_shortcutid,
            filename: opt_string_view(self.filename),
            file_size: self.file_size,
            preview_file_size: self.preview_file_size,
            file_url: opt_string_view(self.file_url),
            preview_url: opt_string_view(self.preview_url),
            youtubevideoid: opt_string_view(self.youtubevideoid),
            url: opt_string_view(self.url),
            hcontent_file: self.hcontent_file,
            hcontent_preview: self.hcontent_preview,
            title: opt_string_view(self.title),
            file_description: opt_string_view(self.file_description),
            short_description: opt_string_view(self.short_description),
            time_created: self.time_created,
            time_updated: self.time_updated,
            visibility: self.visibility,
            flags: self.flags,
            workshop_file: self.workshop_file,
            workshop_accepted: self.workshop_accepted,
            show_subscribe_all: self.show_subscribe_all,
            num_comments_developer: self.num_comments_developer,
            num_comments_public: self.num_comments_public,
            banned: self.banned,
            ban_reason: opt_string_view(self.ban_reason),
            banner: self.banner,
            can_be_deleted: self.can_be_deleted,
            incompatible: self.incompatible,
            app_name: opt_string_view(self.app_name),
            file_type: self.file_type,
            can_subscribe: self.can_subscribe,
            subscriptions: self.subscriptions,
            favorited: self.favorited,
            followers: self.followers,
            lifetime_subscriptions: self.lifetime_subscriptions,
            lifetime_favorited: self.lifetime_favorited,
            lifetime_followers: self.lifetime_followers,
            lifetime_playtime: self.lifetime_playtime,
            lifetime_playtime_sessions: self.lifetime_playtime_sessions,
            views: self.views,
            image_width: self.image_width,
            image_height: self.image_height,
            image_url: opt_string_view(self.image_url),
            spoiler_tag: self.spoiler_tag,
            shortcutid: self.shortcutid,
            shortcutname: opt_string_view(self.shortcutname),
            num_children: self.num_children,
            num_reports: self.num_reports,
            previews: crate::steammessages_publishedfile_steamclient::published_file_details::Preview::view_all(self.previews@),
            tags: crate::steammessages_publishedfile_steamclient::published_file_details::Tag::view_all(self.tags@),
            children: crate::steammessages_publishedfile_steamclient::published_file_details::Child::view_all(self.children@),
            kvtags: crate::steammessages_publishedfile_steamclient::published_file_details::KVTag::view_all(self.kvtags@),
            vote_data: crate::steammessages_publishedfile_steamclient::published_file_details::VoteData::view_opt(self.vote_data),
            playtime_stats: crate::steammessages_publishedfile_steamclient::published_file_details::PlaytimeStats::view_opt(self.playtime_stats),
            time_subscribed: self.time_subscribed,
            for_sale_data: crate::steammessages_publishedfile_steamclient::published_file_details::ForSaleData::view_opt(self.for_sale_data),
            metadata: opt_string_view(self.metadata),
            language: self.language,
            maybe_inappropriate_sex: self.maybe_inappropriate_sex,
            maybe_inappropriate_violence: self.maybe_inappropriate_violence,
            content_descriptorids: crate::enums_productinfo::EContentDescriptorID::values(self.content_descriptorids@),
            revision_change_number: self.revision_change_number,
            revision: match self.revision { Some(e) => Some(e.0), None => None },
            available_revisions: crate::steammessages_publishedfile_steamclient::EPublishedFileRevision::values(self.available_revisions@),
            reactions: crate::steammessages_publishedfile_steamclient::published_file_details::Reaction::view_all(self.reactions@),
            ban_text_check_result: match self.ban_text_check_result { Some(e) => Some(e.0), None => None },
            search_score: self.search_score,
            external_asset_id: self.external_asset_id,
            author_snapshots: crate::steammessages_publishedfile_steamclient::PublishedFileAuthorSnapshot::view_all(self.author_snapshots@),
        }
    }
}

impl Default for PublishedFileDetails {
    fn default() -> (r: Self)
        ensures
            r@ == PublishedFileDetails::spec_default(),
    {
        PublishedFileDetails {
            result: None,
            publishedfileid: None,
            creator: None,
            creator_appid: None,
            consumer_appid: None,
            consumer_shortcutid: None,
            filename: None,
            file_size: None,
            preview_file_size: None,
            file_url: None,
            preview_url: None,
            youtubevideoid: None,
            url: None,
            hcontent_file: None,
            hcontent_preview: None,
            title: None,
            file_description: None,
            short_description: None,
            time_created: None,
            time_updated: None,
            visibility: None,
            flags: None,
            workshop_file: None,
            workshop_accepted: None,
            show_subscribe_all: None,
            num_comments_developer: None,
            num_comments_public: None,
            banned: None,
            ban_reason: None,
            banner: None,
            can_be_deleted: None,
            incompatible: None,
            app_name: None,
            file_type: None,
            can_subscribe: None,
            subscriptions: None,
            favorited: None,
            followers: None,
            lifetime_subscriptions: None,
            lifetime_favorited: None,
            lifetime_followers: None,
            lifetime_playtime: None,
            lifetime_playtime_sessions: None,
            views: None,
            image_width: None,
            image_height: None,
            image_url: None,
            spoiler_tag: None,
            shortcutid: None,
            shortcutname: None,
            num_children: None,
            num_reports: None,
            previews: Vec::new(),
            tags: Vec::new(),
            children: Vec::new(),
            kvtags: Vec::new(),
            vote_data: None,
            playtime_stats: None,
            time_subscribed: None,
            for_sale_data: None,
            metadata: None,
            language: None,
            maybe_inappropriate_sex: None,
            maybe_inappropriate_violence: None,
            content_descriptorids: Vec::new(),
            revision_change_number: None,
            revision: None,
            available_revisions: Vec::new(),
            reactions: Vec::new(),
            ban_text_check_result: None,
            search_score: None,
            external_asset_id: None,
            author_snapshots: Vec::new(),
        }
    }
}

impl PublishedFileDetails {
    /// Field 61, or its schema default when absent.
    pub fn language_or_default(&self) -> (r: i32)
        ensures
            r == match self.language {
                Some(x) => x,
                None => 0i32,
            },
    {
        self.language.unwrap_or(0i32)
    }

    /// Field 68, or its schema default when absent.
    pub fn revision_or_default(&self) -> (r: crate::steammessages_publishedfile_steamclient::EPublishedFileRevision)
        ensures
            r == match self.revision {
                Some(e) => e,
                None => crate::steammessages_publishedfile_steamclient::EPublishedFileRevision(0),
            },
    {
        match self.revision {
            Some(e) => e,
            None => crate::steammessages_publishedfile_steamclient::EPublishedFileRevision::k_EPublishedFileRevision_Default(),
        }
    }

    /// Field 71, or its schema default when absent.
    pub fn ban_text_check_result_or_default(&self) -> (r: crate::steammessages_base::EBanContentCheckResult)
        ensures
            r == match self.ban_text_check_result {
                Some(e) => e,
                None => crate::steammessages_base::EBanContentCheckResult(0),
            },
    {
        match self.ban_text_check_result {
            Some(e) => e,
            None => crate::steammessages_base::EBanContentCheckResult::k_EBanContentCheckResult_NotScanned(),
        }
    }

    pub open spec fn spec_default() -> SpecPublishedFileDetails {
        SpecPublishedFileDetails {
            result: None,
            publishedfileid: None,
            creator: None,
            creator_appid: None,
            consumer_appid: None,
            consumer_shortcutid: None,
            filename: None,
            file_size: None,
            preview_file_size: None,
            file_url: None,
            preview_url: None,
            youtubevideoid: None,
            url: None,
            hcontent_file: None,
            hcontent_preview: None,
            title: None,
            file_description: None,
            short_description: None,
            time_created: None,
            time_updated: None,
            visibility: None,
            flags: None,
            workshop_file: None,
            workshop_accepted: None,
            show_subscribe_all: None,
            num_comments_developer: None,
            num_comments_public: None,
            banned: None,
            ban_reason: None,
            banner: None,
            can_be_deleted: None,
            incompatible: None,
            app_name: None,
            file_type: None,
            can_subscribe: None,
            subscriptions: None,
            favorited: None,
            followers: None,
            lifetime_subscriptions: None,
            lifetime_favorited: None,
            lifetime_followers: None,
            lifetime_playtime: None,
            lifetime_playtime_sessions: None,
            views: None,
            image_width: None,
            image_height: None,
            image_url: None,
            spoiler_tag: None,
            shortcutid: None,
            shortcutname: None,
            num_children: None,
            num_reports: None,
            previews: Seq::empty(),
            tags: Seq::empty(),
            children: Seq::empty(),
            kvtags: Seq::empty(),
            vote_data: None,
            playtime_stats: None,
            time_subscribed: None,
            for_sale_data: None,
            metadata: None,
            language: None,
            maybe_inappropriate_sex: None,
            maybe_inappropriate_violence: None,
            content_descriptorids: Seq::empty(),
            revision_change_number: None,
            revision: None,
            available_revisions: Seq::empty(),
            reactions: Seq::empty(),
            ban_text_check_result: None,
            search_score: None,
            external_asset_id: None,
            author_snapshots: Seq::empty(),
        }
    }

    /// The records a `PublishedFileDetails` is written as, in field order.
    pub open spec fn spec_fields(v: SpecPublishedFileDetails) -> Seq<SpecField> {
        Seq::<SpecField>::empty()
            + opt_u32(1, v.result)
            + opt_u64(2, v.publishedfileid)
            + opt_fixed64(3, v.creator)
            + opt_u32(4, v.creator_appid)
            + opt_u32(5, v.consumer_appid)
            + opt_u32(6, v.consumer_shortcutid)
            + opt_string(7, v.filename)
            + opt_u64(8, v.file_size)
            + opt_u64(9, v.preview_file_size)
            + opt_string(10, v.file_url)
            + opt_string(11, v.preview_url)
            + opt_string(12, v.youtubevideoid)
            + opt_string(13, v.url)
            + opt_fixed64(14, v.hcontent_file)
            + opt_fixed64(15, v.hcontent_preview)
            + opt_string(16, v.title)
            + opt_string(17, v.file_description)
            + opt_string(18, v.short_description)
            + opt_u32(19, v.time_created)
            + opt_u32(20, v.time_updated)
            + opt_u32(21, v.visibility)
            + opt_u32(22, v.flags)
            + opt_bool(23, v.workshop_file)
            + opt_bool(24, v.workshop_accepted)
            + opt_bool(25, v.show_subscribe_all)
            + opt_i32(26, v.num_comments_developer)
            + opt_i32(27, v.num_comments_public)
            + opt_bool(28, v.banned)
            + opt_string(29, v.ban_reason)
            + opt_fixed64(30, v.banner)
            + opt_bool(31, v.can_be_deleted)
            + opt_bool(32, v.incompatible)
            + opt_string(33, v.app_name)
            + opt_u32(34, v.file_type)
            + opt_bool(35, v.can_subscribe)
            + opt_u32(36, v.subscriptions)
            + opt_u32(37, v.favorited)
            + opt_u32(38, v.followers)
            + opt_u32(39, v.lifetime_subscriptions)
            + opt_u32(40, v.lifetime_favorited)
            + opt_u32(41, v.lifetime_followers)
            + opt_u64(62, v.lifetime_playtime)
            + opt_u64(63, v.lifetime_playtime_sessions)
            + opt_u32(42, v.views)
            + opt_u32(43, v.image_width)
            + opt_u32(44, v.image_height)
            + opt_string(45, v.image_url)
            + opt_bool(46, v.spoiler_tag)
            + opt_u32(47, v.shortcutid)
            + opt_string(48, v.shortcutname)
            + opt_u32(49, v.num_children)
            + opt_u32(50, v.num_reports)
            + rep_bytes(51, crate::steammessages_publishedfile_steamclient::published_file_details::Preview::spec_encode_all(v.previews))
            + rep_bytes(52, crate::steammessages_publishedfile_steamclient::published_file_details::Tag::spec_encode_all(v.tags))
            + rep_bytes(53, crate::steammessages_publishedfile_steamclient::published_file_details::Child::spec_encode_all(v.children))
            + rep_bytes(54, crate::steammessages_publishedfile_steamclient::published_file_details::KVTag::spec_encode_all(v.kvtags))
            + opt_bytes(55, crate::steammessages_publishedfile_steamclient::published_file_details::VoteData::spec_encode_opt(v.vote_data))
            + opt_bytes(64, crate::steammessages_publishedfile_steamclient::published_file_details::PlaytimeStats::spec_encode_opt(v.playtime_stats))
            + opt_u32(56, v.time_subscribed)
            + opt_bytes(57, crate::steammessages_publishedfile_steamclient::published_file_details::ForSaleData::spec_encode_opt(v.for_sale_data))
            + opt_string(58, v.metadata)
            + opt_i32(61, v.language)
            + opt_bool(65, v.maybe_inappropriate_sex)
            + opt_bool(66, v.maybe_inappropriate_violence)
            + rep_i32(72, v.content_descriptorids)
            + opt_u64(67, v.revision_change_number)
            + opt_i32(68, v.revision)
            + rep_i32(69, v.available_revisions)
            + rep_bytes(70, crate::steammessages_publishedfile_steamclient::published_file_details::Reaction::spec_encode_all(v.reactions))
            + opt_i32(71, v.ban_text_check_result)
            + opt_fixed32(73, v.search_score)
            + opt_u64(74, v.external_asset_id)
            + rep_bytes(75, crate::steammessages_publishedfile_steamclient::PublishedFileAuthorSnapshot::spec_encode_all(v.author_snapshots))
    }

    #[verifier::opaque]
    pub open spec fn spec_encode(v: SpecPublishedFileDetails) -> Seq<u8> {
        fields_bytes(Self::spec_fields(v))
    }

    /// What one record does to the message: a declared number sets or extends its
    /// field, any other number is left alone.
    pub open spec fn spec_apply(v: SpecPublishedFileDetails, f: SpecField) -> Result<SpecPublishedFileDetails, WireError> {
        match f.number {
            1 => match dec_u32(f.value) {
                Ok(x) => Ok(SpecPublishedFileDetails { result: Some(x), ..v }),
                Err(e) => Err(e),
            },
            2 => match dec_u64(f.value) {
                Ok(x) => Ok(SpecPublishedFileDetails { publishedfileid: Some(x), ..v }),
                Err(e) => Err(e),
            },
            3 => match dec_fixed64(f.value) {
                Ok(x) => Ok(SpecPublishedFileDetails { creator: Some(x), ..v }),
                Err(e) => Err(e),
            },
            4 => match dec_u32(f.value) {
                Ok(x) => Ok(SpecPublishedFileDetails { creator_appid: Some(x), ..v }),
                Err(e) => Err(e),
            },
            5 => match dec_u32(f.value) {
                Ok(x) => Ok(SpecPublishedFileDetails { consumer_appid: Some(x), ..v }),
                Err(e) => Err(e),
            },
            6 => match dec_u32(f.value) {
                Ok(x) => Ok(SpecPublishedFileDetails { consumer_shortcutid: Some(x), ..v }),
                Err(e) => Err(e),
            },
            7 => match dec_string(f.value) {
                Ok(x) => Ok(SpecPublishedFileDetails { filename: Some(x), ..v }),
                Err(e) => Err(e),
            },
            8 => match dec_u64(f.value) {
                Ok(x) => Ok(SpecPublishedFileDetails { file_size: Some(x), ..v }),
                Err(e) => Err(e),
            },
            9 => match dec_u64(f.value) {
                Ok(x) => Ok(SpecPublishedFileDetails { preview_file_size: Some(x), ..v }),
                Err(e) => Err(e),
            },
            10 => match dec_string(f.value) {
                Ok(x) => Ok(SpecPublishedFileDetails { file_url: Some(x), ..v }),
                Err(e) => Err(e),
            },
            11 => match dec_string(f.value) {
                Ok(x) => Ok(SpecPublishedFileDetails { preview_url: Some(x), ..v }),
                Err(e) => Err(e),
            },
            12 => match dec_string(f.value) {
                Ok(x) => Ok(SpecPublishedFileDetails { youtubevideoid: Some(x), ..v }),
                Err(e) => Err(e),
            },
            13 => match dec_string(f.value) {
                Ok(x) => Ok(SpecPublishedFileDetails { url: Some(x), ..v }),
                Err(e) => Err(e),
            },
            14 => match dec_fixed64(f.value) {
                Ok(x) => Ok(SpecPublishedFileDetails { hcontent_file: Some(x), ..v }),
                Err(e) => Err(e),
            },
            15 => match dec_fixed64(f.value) {
                Ok(x) => Ok(SpecPublishedFileDetails { hcontent_preview: Some(x), ..v }),
                Err(e) => Err(e),
            },
            16 => match dec_string(f.value) {
                Ok(x) => Ok(SpecPublishedFileDetails { title: Some(x), ..v }),
                Err(e) => Err(e),
            },
            17 => match dec_string(f.value) {
                Ok(x) => Ok(SpecPublishedFileDetails { file_description: Some(x), ..v }),
                Err(e) => Err(e),
            },
            18 => match dec_string(f.value) {
                Ok(x) => Ok(SpecPublishedFileDetails { short_description: Some(x), ..v }),
                Err(e) => Err(e),
            },
            19 => match dec_u32(f.value) {
                Ok(x) => Ok(SpecPublishedFileDetails { time_created: Some(x), ..v }),
                Err(e) => Err(e),
            },
            20 => match dec_u32(f.value) {
                Ok(x) => Ok(SpecPublishedFileDetails { time_updated: Some(x), ..v }),
                Err(e) => Err(e),
            },
            21 => match dec_u32(f.value) {
                Ok(x) => Ok(SpecPublishedFileDetails { visibility: Some(x), ..v }),
                Err(e) => Err(e),
            },
            22 => match dec_u32(f.value) {
                Ok(x) => Ok(SpecPublishedFileDetails { flags: Some(x), ..v }),
                Err(e) => Err(e),
            },
            23 => match dec_bool(f.value) {
                Ok(x) => Ok(SpecPublishedFileDetails { workshop_file: Some(x), ..v }),
                Err(e) => Err(e),
            },
            24 => match dec_bool(f.value) {
                Ok(x) => Ok(SpecPublishedFileDetails { workshop_accepted: Some(x), ..v }),
                Err(e) => Err(e),
            },
            25 => match dec_bool(f.value) {
                Ok(x) => Ok(SpecPublishedFileDetails { show_subscribe_all: Some(x), ..v }),
                Err(e) => Err(e),
            },
            26 => match dec_i32(f.value) {
                Ok(x) => Ok(SpecPublishedFileDetails { num_comments_developer: Some(x), ..v }),
                Err(e) => Err(e),
            },
            27 => match dec_i32(f.value) {
                Ok(x) => Ok(SpecPublishedFileDetails { num_comments_public: Some(x), ..v }),
                Err(e) => Err(e),
            },
            28 => match dec_bool(f.value) {
                Ok(x) => Ok(SpecPublishedFileDetails { banned: Some(x), ..v }),
                Err(e) => Err(e),
            },
            29 => match dec_string(f.value) {
                Ok(x) => Ok(SpecPublishedFileDetails { ban_reason: Some(x), ..v }),
                Err(e) => Err(e),
            },
            30 => match dec_fixed64(f.value) {
                Ok(x) => Ok(SpecPublishedFileDetails { banner: Some(x), ..v }),
                Err(e) => Err(e),
            },
            31 => match dec_bool(f.value) {
                Ok(x) => Ok(SpecPublishedFileDetails { can_be_deleted: Some(x), ..v }),
                Err(e) => Err(e),
            },
            32 => match dec_bool(f.value) {
                Ok(x) => Ok(SpecPublishedFileDetails { incompatible: Some(x), ..v }),
                Err(e) => Err(e),
            },
            33 => match dec_string(f.value) {
                Ok(x) => Ok(SpecPublishedFileDetails { app_name: Some(x), ..v }),
                Err(e) => Err(e),
            },
            34 => match dec_u32(f.value) {
                Ok(x) => Ok(SpecPublishedFileDetails { file_type: Some(x), ..v }),
                Err(e) => Err(e),
            },
            35 => match dec_bool(f.value) {
                Ok(x) => Ok(SpecPublishedFileDetails { can_subscribe: Some(x), ..v }),
                Err(e) => Err(e),
            },
            36 => match dec_u32(f.value) {
                Ok(x) => Ok(SpecPublishedFileDetails { subscriptions: Some(x), ..v }),
                Err(e) => Err(e),
            },
            37 => match dec_u32(f.value) {
                Ok(x) => Ok(SpecPublishedFileDetails { favorited: Some(x), ..v }),
                Err(e) => Err(e),
            },
            38 => match dec_u32(f.value) {
                Ok(x) => Ok(SpecPublishedFileDetails { followers: Some(x), ..v }),
                Err(e) => Err(e),
            },
            39 => match dec_u32(f.value) {
                Ok(x) => Ok(SpecPublishedFileDetails { lifetime_subscriptions: Some(x), ..v }),
                Err(e) => Err(e),
            },
            40 => match dec_u32(f.value) {
                Ok(x) => Ok(SpecPublishedFileDetails { lifetime_favorited: Some(x), ..v }),
                Err(e) => Err(e),
            },
            41 => match dec_u32(f.value) {
                Ok(x) => Ok(SpecPublishedFileDetails { lifetime_followers: Some(x), ..v }),
                Err(e) => Err(e),
            },
            62 => match dec_u64(f.value) {
                Ok(x) => Ok(SpecPublishedFileDetails { lifetime_playtime: Some(x), ..v }),
                Err(e) => Err(e),
            },
            63 => match dec_u64(f.value) {
                Ok(x) => Ok(SpecPublishedFileDetails { lifetime_playtime_sessions: Some(x), ..v }),
                Err(e) => Err(e),
            },
            42 => match dec_u32(f.value) {
                Ok(x) => Ok(SpecPublishedFileDetails { views: Some(x), ..v }),
                Err(e) => Err(e),
            },
            43 => match dec_u32(f.value) {
                Ok(x) => Ok(SpecPublishedFileDetails { image_width: Some(x), ..v }),
                Err(e) => Err(e),
            },
            44 => match dec_u32(f.value) {
                Ok(x) => Ok(SpecPublishedFileDetails { image_height: Some(x), ..v }),
                Err(e) => Err(e),
            },
            45 => match dec_string(f.value) {
                Ok(x) => Ok(SpecPublishedFileDetails { image_url: Some(x), ..v }),
                Err(e) => Err(e),
            },
            46 => match dec_bool(f.value) {
                Ok(x) => Ok(SpecPublishedFileDetails { spoiler_tag: Some(x), ..v }),
                Err(e) => Err(e),
            },
            47 => match dec_u32(f.value) {
                Ok(x) => Ok(SpecPublishedFileDetails { shortcutid: Some(x), ..v }),
                Err(e) => Err(e),
            },
            48 => match dec_string(f.value) {
                Ok(x) => Ok(SpecPublishedFileDetails { shortcutname: Some(x), ..v }),
                Err(e) => Err(e),
            },
            49 => match dec_u32(f.value) {
                Ok(x) => Ok(SpecPublishedFileDetails { num_children: Some(x), ..v }),
                Err(e) => Err(e),
            },
            50 => match dec_u32(f.value) {
                Ok(x) => Ok(SpecPublishedFileDetails { num_reports: Some(x), ..v }),
                Err(e) => Err(e),
            },
            51 => match dec_bytes(f.value) {
                Ok(b) => match crate::steammessages_publishedfile_steamclient::published_file_details::Preview::spec_decode(b) {
                    Ok(m) => Ok(SpecPublishedFileDetails { previews: v.previews.push(m), ..v }),
                    Err(e) => Err(e),
                },
                Err(e) => Err(e),
            },
            52 => match dec_bytes(f.value) {
                Ok(b) => match crate::steammessages_publishedfile_steamclient::published_file_details::Tag::spec_decode(b) {
                    Ok(m) => Ok(SpecPublishedFileDetails { tags: v.tags.push(m), ..v }),
                    Err(e) => Err(e),
                },
                Err(e) => Err(e),
            },
            53 => match dec_bytes(f.value) {
                Ok(b) => match crate::steammessages_publishedfile_steamclient::published_file_details::Child::spec_decode(b) {
                    Ok(m) => Ok(SpecPublishedFileDetails { children: v.children.push(m), ..v }),
                    Err(e) => Err(e),
                },
                Err(e) => Err(e),
            },
            54 => match dec_bytes(f.value) {
                Ok(b) => match crate::steammessages_publishedfile_steamclient::published_file_details::KVTag::spec_decode(b) {
                    Ok(m) => Ok(SpecPublishedFileDetails { kvtags: v.kvtags.push(m), ..v }),
                    Err(e) => Err(e),
                },
                Err(e) => Err(e),
            },
            55 => match dec_bytes(f.value) {
                Ok(b) => match crate::steammessages_publishedfile_steamclient::published_file_details::VoteData::spec_decode(b) {
                    Ok(m) => Ok(SpecPublishedFileDetails { vote_data: Some(m), ..v }),
                    Err(e) => Err(e),
                },
                Err(e) => Err(e),
            },
            64 => match dec_bytes(f.value) {
                Ok(b) => match crate::steammessages_publishedfile_steamclient::published_file_details::PlaytimeStats::spec_decode(b) {
                    Ok(m) => Ok(SpecPublishedFileDetails { playtime_stats: Some(m), ..v }),
                    Err(e) => Err(e),
                },
                Err(e) => Err(e),
            },
            56 => match dec_u32(f.value) {
                Ok(x) => Ok(SpecPublishedFileDetails { time_subscribed: Some(x), ..v }),
                Err(e) => Err(e),
            },
            57 => match dec_bytes(f.value) {
                Ok(b) => match crate::steammessages_publishedfile_steamclient::published_file_details::ForSaleData::spec_decode(b) {
                    Ok(m) => Ok(SpecPublishedFileDetails { for_sale_data: Some(m), ..v }),
                    Err(e) => Err(e),
                },
                Err(e) => Err(e),
            },
            58 => match dec_string(f.value) {
                Ok(x) => Ok(SpecPublishedFileDetails { metadata: Some(x), ..v }),
                Err(e) => Err(e),
            },
            61 => match dec_i32(f.value) {
                Ok(x) => Ok(SpecPublishedFileDetails { language: Some(x), ..v }),
                Err(e) => Err(e),
            },
            65 => match dec_bool(f.value) {
                Ok(x) => Ok(SpecPublishedFileDetails { maybe_inappropriate_sex: Some(x), ..v }),
                Err(e) => Err(e),
            },
            66 => match dec_bool(f.value) {
                Ok(x) => Ok(SpecPublishedFileDetails { maybe_inappropriate_violence: Some(x), ..v }),
                Err(e) => Err(e),
            },
            72 => match dec_packed_i32(f.value) {
                Ok(xs) => Ok(SpecPublishedFileDetails { content_descriptorids: v.content_descriptorids + xs, ..v }),
                Err(e) => Err(e),
            },
            67 => match dec_u64(f.value) {
                Ok(x) => Ok(SpecPublishedFileDetails { revision_change_number: Some(x), ..v }),
                Err(e) => Err(e),
            },
            68 => match dec_i32(f.value) {
                Ok(x) => Ok(SpecPublishedFileDetails { revision: Some(x), ..v }),
                Err(e) => Err(e),
            },
            69 => match dec_packed_i32(f.value) {
                Ok(xs) => Ok(SpecPublishedFileDetails { available_revisions: v.available_revisions + xs, ..v }),
                Err(e) => Err(e),
            },
            70 => match dec_bytes(f.value) {
                Ok(b) => match crate::steammessages_publishedfile_steamclient::published_file_details::Reaction::spec_decode(b) {
                    Ok(m) => Ok(SpecPublishedFileDetails { reactions: v.reactions.push(m), ..v }),
                    Err(e) => Err(e),
                },
                Err(e) => Err(e),
            },
            71 => match dec_i32(f.value) {
                Ok(x) => Ok(SpecPublishedFileDetails { ban_text_check_result: Some(x), ..v }),
                Err(e) => Err(e),
            },
            73 => match dec_fixed32(f.value) {
                Ok(x) => Ok(SpecPublishedFileDetails { search_score: Some(x), ..v }),
                Err(e) => Err(e),
            },
            74 => match dec_u64(f.value) {
                Ok(x) => Ok(SpecPublishedFileDetails { external_asset_id: Some(x), ..v }),
                Err(e) => Err(e),
            },
            75 => match dec_bytes(f.value) {
                Ok(b) => match crate::steammessages_publishedfile_steamclient::PublishedFileAuthorSnapshot::spec_decode(b) {
                    Ok(m) => Ok(SpecPublishedFileDetails { author_snapshots: v.author_snapshots.push(m), ..v }),
                    Err(e) => Err(e),
                },
                Err(e) => Err(e),
            },
            _ => Ok(v),
        }
    }

    pub open spec fn apply_fn() -> spec_fn(SpecPublishedFileDetails, SpecField) -> Result<SpecPublishedFileDetails, WireError> {
        |v: SpecPublishedFileDetails, f: SpecField| Self::spec_apply(v, f)
    }

    /// The message `bytes` makes of `v`: its records applied in order, or the error
    /// that stops the reading.
    pub open spec fn spec_merge(v: SpecPublishedFileDetails, bytes: Seq<u8>) -> Result<SpecPublishedFileDetails, WireError> {
        let (w, stop) = merge_run(v, bytes, Self::apply_fn());
        match stop {
            None => Ok(w),
            Some(e) => Err(e),
        }
    }

    #[verifier::opaque]
    pub open spec fn spec_decode(bytes: Seq<u8>) -> Result<SpecPublishedFileDetails, WireError> {
        Self::spec_merge(Self::spec_default(), bytes)
    }

    pub open spec fn view_all(xs: Seq<PublishedFileDetails>) -> Seq<SpecPublishedFileDetails> {
        xs.map_values(|m: PublishedFileDetails| m@)
    }

    pub open spec fn view_opt(o: Option<PublishedFileDetails>) -> Option<SpecPublishedFileDetails> {
        match o {
            Some(m) => Some(m@),
            None => None,
        }
    }

    pub open spec fn spec_encode_all(xs: Seq<SpecPublishedFileDetails>) -> Seq<Seq<u8>> {
        xs.map_values(|m: SpecPublishedFileDetails| Self::spec_encode(m))
    }

    pub open spec fn spec_encode_opt(o: Option<SpecPublishedFileDetails>) -> Option<Seq<u8>> {
        match o {
            Some(m) => Some(Self::spec_encode(m)),
            None => None,
        }
    }

    /// The encoding of each element.
    pub fn encode_all(xs: &Vec<PublishedFileDetails>) -> (r: Vec<Vec<u8>>)
        ensures
            bytes_seq_view(r@) == Self::spec_encode_all(Self::view_all(xs@)),
    {
        let mut out: Vec<Vec<u8>> = Vec::new();
        let mut i: usize = 0;
        while i < xs.len()
            invariant
                i <= xs@.len(),
                out@.len() == i,
                forall|j: int| 0 <= j < i ==> #[trigger] out@[j]@ == Self::spec_encode(xs@[j]@),
            decreases xs@.len() - i,
        {
            let e = xs[i].encode_to_vec();
            out.push(e);
            i = i + 1;
        }
        assert(bytes_seq_view(out@) =~= Self::spec_encode_all(Self::view_all(xs@)));
        out
    }

    /// The encoding of the element, when there is one.
    pub fn encode_opt(o: &Option<PublishedFileDetails>) -> (r: Option<Vec<u8>>)
        ensures
            opt_bytes_view(r) == Self::spec_encode_opt(Self::view_opt(*o)),
    {
        match o {
            Some(m) => Some(m.encode_to_vec()),
            None => None,
        }
    }

    /// This message with one record applied to it, or, when the record is refused,
    /// the message unchanged and the reason.
    fn applied(self, f: &Field) -> (r: Result<Self, (Self, WireError)>)
        ensures
            match Self::spec_apply(self@, f@) {
                Ok(v) => r matches Ok(m) && m@ == v,
                Err(e) => r matches Err((m, x)) && x == e && m@ == self@,
            },
    {
        if f.number <= 4 {
            self.applied_0(f)
        } else if f.number <= 8 {
            self.applied_1(f)
        } else if f.number <= 12 {
            self.applied_2(f)
        } else if f.number <= 16 {
            self.applied_3(f)
        } else if f.number <= 20 {
            self.applied_4(f)
        } else if f.number <= 24 {
            self.applied_5(f)
        } else if f.number <= 28 {
            self.applied_6(f)
        } else if f.number <= 32 {
            self.applied_7(f)
        } else if f.number <= 36 {
            self.applied_8(f)
        } else if f.number <= 40 {
            self.applied_9(f)
        } else if f.number <= 44 {
            self.applied_10(f)
        } else if f.number <= 48 {
            self.applied_11(f)
        } else if f.number <= 52 {
            self.applied_12(f)
        } else if f.number <= 56 {
            self.applied_13(f)
        } else if f.number <= 62 {
            self.applied_14(f)
        } else if f.number <= 66 {
            self.applied_15(f)
        } else if f.number <= 70 {
            self.applied_16(f)
        } else if f.number <= 74 {
            self.applied_17(f)
        } else {
            self.applied_18(f)
        }
    }

    /// `applied`, for the records numbered up to 4.
    #[verifier::rlimit(40)]
    fn applied_0(self, f: &Field) -> (r: Result<Self, (Self, WireError)>)
        requires
            f.number <= 4,
        ensures
            match Self::spec_apply(self@, f@) {
                Ok(v) => r matches Ok(m) && m@ == v,
                Err(e) => r matches Err((m, x)) && x == e && m@ == self@,
            },
    {
        match f.number {
            1 => match read_u32(&f.value) {
                Ok(x) => Ok(Self { result: Some(x), ..self }),
                Err(e) => Err((self, e)),
            },
            2 => match read_u64(&f.value) {
                Ok(x) => Ok(Self { publishedfileid: Some(x), ..self }),
                Err(e) => Err((self, e)),
            },
            3 => match read_fixed64(&f.value) {
                Ok(x) => Ok(Self { creator: Some(x), ..self }),
                Err(e) => Err((self, e)),
            },
            4 => match read_u32(&f.value) {
                Ok(x) => Ok(Self { creator_appid: Some(x), ..self }),
                Err(e) => Err((self, e)),
            },
            _ => Ok(self),
        }
    }

    /// `applied`, for the records numbered from 5 to 8.
    #[verifier::rlimit(40)]
    fn applied_1(self, f: &Field) -> (r: Result<Self, (Self, WireError)>)
        requires
            4 < f.number,
            f.number <= 8,
        ensures
            match Self::spec_apply(self@, f@) {
                Ok(v) => r matches Ok(m) && m@ == v,
                Err(e) => r matches Err((m, x)) && x == e && m@ == self@,
            },
    {
        match f.number {
            5 => match read_u32(&f.value) {
                Ok(x) => Ok(Self { consumer_appid: Some(x), ..self }),
                Err(e) => Err((self, e)),
            },
            6 => match read_u32(&f.value) {
                Ok(x) => Ok(Self { consumer_shortcutid: Some(x), ..self }),
                Err(e) => Err((self, e)),
            },
            7 => match read_string(&f.value) {
                Ok(x) => Ok(Self { filename: Some(x), ..self }),
                Err(e) => Err((self, e)),
            },
            8 => match read_u64(&f.value) {
                Ok(x) => Ok(Self { file_size: Some(x), ..self }),
                Err(e) => Err((self, e)),
            },
            _ => Ok(self),
        }
    }

    /// `applied`, for the records numbered from 9 to 12.
    #[verifier::rlimit(40)]
    fn applied_2(self, f: &Field) -> (r: Result<Self, (Self, WireError)>)
        requires
            8 < f.number,
            f.number <= 12,
        ensures
            match Self::spec_apply(self@, f@) {
                Ok(v) => r matches Ok(m) && m@ == v,
                Err(e) => r matches Err((m, x)) && x == e && m@ == self@,
            },
    {
        match f.number {
            9 => match read_u64(&f.value) {
                Ok(x) => Ok(Self { preview_file_size: Some(x), ..self }),
                Err(e) => Err((self, e)),
            },
            10 => match read_string(&f.value) {
                Ok(x) => Ok(Self { file_url: Some(x), ..self }),
                Err(e) => Err((self, e)),
            },
            11 => match read_string(&f.value) {
                Ok(x) => Ok(Self { preview_url: Some(x), ..self }),
                Err(e) => Err((self, e)),
            },
            12 => match read_string(&f.value) {
                Ok(x) => Ok(Self { youtubevideoid: Some(x), ..self }),
                Err(e) => Err((self, e)),
            },
            _ => Ok(self),
        }
    }

    /// `applied`, for the records numbered from 13 to 16.
    #[verifier::rlimit(40)]
    fn applied_3(self, f: &Field) -> (r: Result<Self, (Self, WireError)>)
        requires
            12 < f.number,
            f.number <= 16,
        ensures
            match Self::spec_apply(self@, f@) {
                Ok(v) => r matches Ok(m) && m@ == v,
                Err(e) => r matches Err((m, x)) && x == e && m@ == self@,
            },
    {
        match f.number {
            13 => match read_string(&f.value) {
                Ok(x) => Ok(Self { url: Some(x), ..self }),
                Err(e) => Err((self, e)),
            },
            14 => match read_fixed64(&f.value) {
                Ok(x) => Ok(Self { hcontent_file: Some(x), ..self }),
                Err(e) => Err((self, e)),
            },
            15 => match read_fixed64(&f.value) {
                Ok(x) => Ok(Self { hcontent_preview: Some(x), ..self }),
                Err(e) => Err((self, e)),
            },
            16 => match read_string(&f.value) {
                Ok(x) => Ok(Self { title: Some(x), ..self }),
                Err(e) => Err((self, e)),
            },
            _ => Ok(self),
        }
    }

    /// `applied`, for the records numbered from 17 to 20.
    #[verifier::rlimit(40)]
    fn applied_4(self, f: &Field) -> (r: Result<Self, (Self, WireError)>)
        requires
            16 < f.number,
            f.number <= 20,
        ensures
            match Self::spec_apply(self@, f@) {
                Ok(v) => r matches Ok(m) && m@ == v,
                Err(e) => r matches Err((m, x)) && x == e && m@ == self@,
            },
    {
        match f.number {
            17 => match read_string(&f.value) {
                Ok(x) => Ok(Self { file_description: Some(x), ..self }),
                Err(e) => Err((self, e)),
            },
            18 => match read_string(&f.value) {
                Ok(x) => Ok(Self { short_description: Some(x), ..self }),
                Err(e) => Err((self, e)),
            },
            19 => match read_u32(&f.value) {
                Ok(x) => Ok(Self { time_created: Some(x), ..self }),
                Err(e) => Err((self, e)),
            },
            20 => match read_u32(&f.value) {
                Ok(x) => Ok(Self { time_updated: Some(x), ..self }),
                Err(e) => Err((self, e)),
            },
            _ => Ok(self),
        }
    }

    /// `applied`, for the records numbered from 21 to 24.
    #[verifier::rlimit(40)]
    fn applied_5(self, f: &Field) -> (r: Result<Self, (Self, WireError)>)
        requires
            20 < f.number,
            f.number <= 24,
        ensures
            match Self::spec_apply(self@, f@) {
                Ok(v) => r matches Ok(m) && m@ == v,
                Err(e) => r matches Err((m, x)) && x == e && m@ == self@,
            },
    {
        match f.number {
            21 => match read_u32(&f.value) {
                Ok(x) => Ok(Self { visibility: Some(x), ..self }),
                Err(e) => Err((self, e)),
            },
            22 => match read_u32(&f.value) {
                Ok(x) => Ok(Self { flags: Some(x), ..self }),
                Err(e) => Err((self, e)),
            },
            23 => match read_bool(&f.value) {
                Ok(x) => Ok(Self { workshop_file: Some(x), ..self }),
                Err(e) => Err((self, e)),
            },
            24 => match read_bool(&f.value) {
                Ok(x) => Ok(Self { workshop_accepted: Some(x), ..self }),
                Err(e) => Err((self, e)),
            },
            _ => Ok(self),
        }
    }

    /// `applied`, for the records numbered from 25 to 28.
    #[verifier::rlimit(40)]
    fn applied_6(self, f: &Field) -> (r: Result<Self, (Self, WireError)>)
        requires
            24 < f.number,
            f.number <= 28,
        ensures
            match Self::spec_apply(self@, f@) {
                Ok(v) => r matches Ok(m) && m@ == v,
                Err(e) => r matches Err((m, x)) && x == e && m@ == self@,
            },
    {
        match f.number {
            25 => match read_bool(&f.value) {
                Ok(x) => Ok(Self { show_subscribe_all: Some(x), ..self }),
                Err(e) => Err((self, e)),
            },
            26 => match read_i32(&f.value) {
                Ok(x) => Ok(Self { num_comments_developer: Some(x), ..self }),
                Err(e) => Err((self, e)),
            },
            27 => match read_i32(&f.value) {
                Ok(x) => Ok(Self { num_comments_public: Some(x), ..self }),
                Err(e) => Err((self, e)),
            },
            28 => match read_bool(&f.value) {
                Ok(x) => Ok(Self { banned: Some(x), ..self }),
                Err(e) => Err((self, e)),
            },
            _ => Ok(self),
        }
    }

    /// `applied`, for the records numbered from 29 to 32.
    #[verifier::rlimit(40)]
    fn applied_7(self, f: &Field) -> (r: Result<Self, (Self, WireError)>)
        requires
            28 < f.number,
            f.number <= 32,
        ensures
            match Self::spec_apply(self@, f@) {
                Ok(v) => r matches Ok(m) && m@ == v,
                Err(e) => r matches Err((m, x)) && x == e && m@ == self@,
            },
    {
        match f.number {
            29 => match read_string(&f.value) {
                Ok(x) => Ok(Self { ban_reason: Some(x), ..self }),
                Err(e) => Err((self, e)),
            },
            30 => match read_fixed64(&f.value) {
                Ok(x) => Ok(Self { banner: Some(x), ..self }),
                Err(e) => Err((self, e)),
            },
            31 => match read_bool(&f.value) {
                Ok(x) => Ok(Self { can_be_deleted: Some(x), ..self }),
                Err(e) => Err((self, e)),
            },
            32 => match read_bool(&f.value) {
                Ok(x) => Ok(Self { incompatible: Some(x), ..self }),
                Err(e) => Err((self, e)),
            },
            _ => Ok(self),
        }
    }

    /// `applied`, for the records numbered from 33 to 36.
    #[verifier::rlimit(40)]
    fn applied_8(self, f: &Field) -> (r: Result<Self, (Self, WireError)>)
        requires
            32 < f.number,
            f.number <= 36,
        ensures
            match Self::spec_apply(self@, f@) {
                Ok(v) => r matches Ok(m) && m@ == v,
                Err(e) => r matches Err((m, x)) && x == e && m@ == self@,
            },
    {
        match f.number {
            33 => match read_string(&f.value) {
                Ok(x) => Ok(Self { app_name: Some(x), ..self }),
                Err(e) => Err((self, e)),
            },
            34 => match read_u32(&f.value) {
                Ok(x) => Ok(Self { file_type: Some(x), ..self }),
                Err(e) => Err((self, e)),
            },
            35 => match read_bool(&f.value) {
                Ok(x) => Ok(Self { can_subscribe: Some(x), ..self }),
                Err(e) => Err((self, e)),
            },
            36 => match read_u32(&f.value) {
                Ok(x) => Ok(Self { subscriptions: Some(x), ..self }),
                Err(e) => Err((self, e)),
            },
            _ => Ok(self),
        }
    }

    /// `applied`, for the records numbered from 37 to 40.
    #[verifier::rlimit(40)]
    fn applied_9(self, f: &Field) -> (r: Result<Self, (Self, WireError)>)
        requires
            36 < f.number,
            f.number <= 40,
        ensures
            match Self::spec_apply(self@, f@) {
                Ok(v) => r matches Ok(m) && m@ == v,
                Err(e) => r matches Err((m, x)) && x == e && m@ == self@,
            },
    {
        match f.number {
            37 => match read_u32(&f.value) {
                Ok(x) => Ok(Self { favorited: Some(x), ..self }),
                Err(e) => Err((self, e)),
            },
            38 => match read_u32(&f.value) {
                Ok(x) => Ok(Self { followers: Some(x), ..self }),
                Err(e) => Err((self, e)),
            },
            39 => match read_u32(&f.value) {
                Ok(x) => Ok(Self { lifetime_subscriptions: Some(x), ..self }),
                Err(e) => Err((self, e)),
            },
            40 => match read_u32(&f.value) {
                Ok(x) => Ok(Self { lifetime_favorited: Some(x), ..self }),
                Err(e) => Err((self, e)),
            },
            _ => Ok(self),
        }
    }

    /// `applied`, for the records numbered from 41 to 44.
    #[verifier::rlimit(40)]
    fn applied_10(self, f: &Field) -> (r: Result<Self, (Self, WireError)>)
        requires
            40 < f.number,
            f.number <= 44,
        ensures
            match Self::spec_apply(self@, f@) {
                Ok(v) => r matches Ok(m) && m@ == v,
                Err(e) => r matches Err((m, x)) && x == e && m@ == self@,
            },
    {
        match f.number {
            41 => match read_u32(&f.value) {
                Ok(x) => Ok(Self { lifetime_followers: Some(x), ..self }),
                Err(e) => Err((self, e)),
            },
            42 => match read_u32(&f.value) {
                Ok(x) => Ok(Self { views: Some(x), ..self }),
                Err(e) => Err((self, e)),
            },
            43 => match read_u32(&f.value) {
                Ok(x) => Ok(Self { image_width: Some(x), ..self }),
                Err(e) => Err((self, e)),
            },
            44 => match read_u32(&f.value) {
                Ok(x) => Ok(Self { image_height: Some(x), ..self }),
                Err(e) => Err((self, e)),
            },
            _ => Ok(self),
        }
    }

    /// `applied`, for the records numbered from 45 to 48.
    #[verifier::rlimit(40)]
    fn applied_11(self, f: &Field) -> (r: Result<Self, (Self, WireError)>)
        requires
            44 < f.number,
            f.number <= 48,
        ensures
            match Self::spec_apply(self@, f@) {
                Ok(v) => r matches Ok(m) && m@ == v,
                Err(e) => r matches Err((m, x)) && x == e && m@ == self@,
            },
    {
        match f.number {
            45 => match read_string(&f.value) {
                Ok(x) => Ok(Self { image_url: Some(x), ..self }),
                Err(e) => Err((self, e)),
            },
            46 => match read_bool(&f.value) {
                Ok(x) => Ok(Self { spoiler_tag: Some(x), ..self }),
                Err(e) => Err((self, e)),
            },
            47 => match read_u32(&f.value) {
                Ok(x) => Ok(Self { shortcutid: Some(x), ..self }),
                Err(e) => Err((self, e)),
            },
            48 => match read_string(&f.value) {
                Ok(x) => Ok(Self { shortcutname: Some(x), ..self }),
                Err(e) => Err((self, e)),
            },
            _ => Ok(self),
        }
    }

    /// `applied`, for the records numbered from 49 to 52.
    #[verifier::rlimit(40)]
    fn applied_12(self, f: &Field) -> (r: Result<Self, (Self, WireError)>)
        requires
            48 < f.number,
            f.number <= 52,
        ensures
            match Self::spec_apply(self@, f@) {
                Ok(v) => r matches Ok(m) && m@ == v,
                Err(e) => r matches Err((m, x)) && x == e && m@ == self@,
            },
    {
        match f.number {
            49 => match read_u32(&f.value) {
                Ok(x) => Ok(Self { num_children: Some(x), ..self }),
                Err(e) => Err((self, e)),
            },
            50 => match read_u32(&f.value) {
                Ok(x) => Ok(Self { num_reports: Some(x), ..self }),
                Err(e) => Err((self, e)),
            },
            51 => match read_payload(&f.value) {
                Ok(b) => match crate::steammessages_publishedfile_steamclient::published_file_details::Preview::decode(b) {
                    Ok(x) => {
                        let mut m = self;
                        let ghost before = m.previews@;
                        m.previews.push(x);
                        assert(crate::steammessages_publishedfile_steamclient::published_file_details::Preview::view_all(m.previews@) =~= crate::steammessages_publishedfile_steamclient::published_file_details::Preview::view_all(before).push(x@));
                        Ok(m)
                    },
                    Err(e) => Err((self, e)),
                },
                Err(e) => Err((self, e)),
            },
            52 => match read_payload(&f.value) {
                Ok(b) => match crate::steammessages_publishedfile_steamclient::published_file_details::Tag::decode(b) {
                    Ok(x) => {
                        let mut m = self;
                        let ghost before = m.tags@;
                        m.tags.push(x);
                        assert(crate::steammessages_publishedfile_steamclient::published_file_details::Tag::view_all(m.tags@) =~= crate::steammessages_publishedfile_steamclient::published_file_details::Tag::view_all(before).push(x@));
                        Ok(m)
                    },
                    Err(e) => Err((self, e)),
                },
                Err(e) => Err((self, e)),
            },
            _ => Ok(self),
        }
    }

    /// `applied`, for the records numbered from 53 to 56.
    #[verifier::rlimit(40)]
    fn applied_13(self, f: &Field) -> (r: Result<Self, (Self, WireError)>)
        requires
            52 < f.number,
            f.number <= 56,
        ensures
            match Self::spec_apply(self@, f@) {
                Ok(v) => r matches Ok(m) && m@ == v,
                Err(e) => r matches Err((m, x)) && x == e && m@ == self@,
            },
    {
        match f.number {
            53 => match read_payload(&f.value) {
                Ok(b) => match crate::steammessages_publishedfile_steamclient::published_file_details::Child::decode(b) {
                    Ok(x) => {
                        let mut m = self;
                        let ghost before = m.children@;
                        m.children.push(x);
                        assert(crate::steammessages_publishedfile_steamclient::published_file_details::Child::view_all(m.children@) =~= crate::steammessages_publishedfile_steamclient::published_file_details::Child::view_all(before).push(x@));
                        Ok(m)
                    },
                    Err(e) => Err((self, e)),
                },
                Err(e) => Err((self, e)),
            },
            54 => match read_payload(&f.value) {
                Ok(b) => match crate::steammessages_publishedfile_steamclient::published_file_details::KVTag::decode(b) {
                    Ok(x) => {
                        let mut m = self;
                        let ghost before = m.kvtags@;
                        m.kvtags.push(x);
                        assert(crate::steammessages_publishedfile_steamclient::published_file_details::KVTag::view_all(m.kvtags@) =~= crate::steammessages_publishedfile_steamclient::published_file_details::KVTag::view_all(before).push(x@));
                        Ok(m)
                    },
                    Err(e) => Err((self, e)),
                },
                Err(e) => Err((self, e)),
            },
            55 => match read_payload(&f.value) {
                Ok(b) => match crate::steammessages_publishedfile_steamclient::published_file_details::VoteData::decode(b) {
                    Ok(m) => Ok(Self { vote_data: Some(m), ..self }),
                    Err(e) => Err((self, e)),
                },
                Err(e) => Err((self, e)),
            },
            56 => match read_u32(&f.value) {
                Ok(x) => Ok(Self { time_subscribed: Some(x), ..self }),
                Err(e) => Err((self, e)),
            },
            _ => Ok(self),
        }
    }

    /// `applied`, for the records numbered from 57 to 62.
    #[verifier::rlimit(40)]
    fn applied_14(self, f: &Field) -> (r: Result<Self, (Self, WireError)>)
        requires
            56 < f.number,
            f.number <= 62,
        ensures
            match Self::spec_apply(self@, f@) {
                Ok(v) => r matches Ok(m) && m@ == v,
                Err(e) => r matches Err((m, x)) && x == e && m@ == self@,
            },
    {
        match f.number {
            57 => match read_payload(&f.value) {
                Ok(b) => match crate::steammessages_publishedfile_steamclient::published_file_details::ForSaleData::decode(b) {
                    Ok(m) => Ok(Self { for_sale_data: Some(m), ..self }),
                    Err(e) => Err((self, e)),
                },
                Err(e) => Err((self, e)),
            },
            58 => match read_string(&f.value) {
                Ok(x) => Ok(Self { metadata: Some(x), ..self }),
                Err(e) => Err((self, e)),
            },
            61 => match read_i32(&f.value) {
                Ok(x) => Ok(Self { language: Some(x), ..self }),
                Err(e) => Err((self, e)),
            },
            62 => match read_u64(&f.value) {
                Ok(x) => Ok(Self { lifetime_playtime: Some(x), ..self }),
                Err(e) => Err((self, e)),
            },
            _ => Ok(self),
        }
    }

    /// `applied`, for the records numbered from 63 to 66.
    #[verifier::rlimit(40)]
    fn applied_15(self, f: &Field) -> (r: Result<Self, (Self, WireError)>)
        requires
            62 < f.number,
            f.number <= 66,
        ensures
            match Self::spec_apply(self@, f@) {
                Ok(v) => r matches Ok(m) && m@ == v,
                Err(e) => r matches Err((m, x)) && x == e && m@ == self@,
            },
    {
        match f.number {
            63 => match read_u64(&f.value) {
                Ok(x) => Ok(Self { lifetime_playtime_sessions: Some(x), ..self }),
                Err(e) => Err((self, e)),
            },
            64 => match read_payload(&f.value) {
                Ok(b) => match crate::steammessages_publishedfile_steamclient::published_file_details::PlaytimeStats::decode(b) {
                    Ok(m) => Ok(Self { playtime_stats: Some(m), ..self }),
                    Err(e) => Err((self, e)),
                },
                Err(e) => Err((self, e)),
            },
            65 => match read_bool(&f.value) {
                Ok(x) => Ok(Self { maybe_inappropriate_sex: Some(x), ..self }),
                Err(e) => Err((self, e)),
            },
            66 => match read_bool(&f.value) {
                Ok(x) => Ok(Self { maybe_inappropriate_violence: Some(x), ..self }),
                Err(e) => Err((self, e)),
            },
            _ => Ok(self),
        }
    }

    /// `applied`, for the records numbered from 67 to 70.
    #[verifier::rlimit(40)]
    fn applied_16(self, f: &Field) -> (r: Result<Self, (Self, WireError)>)
        requires
            66 < f.number,
            f.number <= 70,
        ensures
            match Self::spec_apply(self@, f@) {
                Ok(v) => r matches Ok(m) && m@ == v,
                Err(e) => r matches Err((m, x)) && x == e && m@ == self@,
            },
    {
        match f.number {
            67 => match read_u64(&f.value) {
                Ok(x) => Ok(Self { revision_change_number: Some(x), ..self }),
                Err(e) => Err((self, e)),
            },
            68 => match read_i32(&f.value) {
                Ok(x) => Ok(Self { revision: Some(crate::steammessages_publishedfile_steamclient::EPublishedFileRevision(x)), ..self }),
                Err(e) => Err((self, e)),
            },
            69 => match read_packed_i32(&f.value) {
                Ok(xs) => {
                    let mut m = self;
                    let ghost before = m.available_revisions@;
                    let mut es = crate::steammessages_publishedfile_steamclient::EPublishedFileRevision::from_values(&xs);
                    let ghost added = es@;
                    m.available_revisions.append(&mut es);
                    assert(crate::steammessages_publishedfile_steamclient::EPublishedFileRevision::values(m.available_revisions@) =~= crate::steammessages_publishedfile_steamclient::EPublishedFileRevision::values(before) + crate::steammessages_publishedfile_steamclient::EPublishedFileRevision::values(added));
                    Ok(m)
                },
                Err(e) => Err((self, e)),
            },
            70 => match read_payload(&f.value) {
                Ok(b) => match crate::steammessages_publishedfile_steamclient::published_file_details::Reaction::decode(b) {
                    Ok(x) => {
                        let mut m = self;
                        let ghost before = m.reactions@;
                        m.reactions.push(x);
                        assert(crate::steammessages_publishedfile_steamclient::published_file_details::Reaction::view_all(m.reactions@) =~= crate::steammessages_publishedfile_steamclient::published_file_details::Reaction::view_all(before).push(x@));
                        Ok(m)
                    },
                    Err(e) => Err((self, e)),
                },
                Err(e) => Err((self, e)),
            },
            _ => Ok(self),
        }
    }

    /// `applied`, for the records numbered from 71 to 74.
    #[verifier::rlimit(40)]
    fn applied_17(self, f: &Field) -> (r: Result<Self, (Self, WireError)>)
        requires
            70 < f.number,
            f.number <= 74,
        ensures
            match Self::spec_apply(self@, f@) {
                Ok(v) => r matches Ok(m) && m@ == v,
                Err(e) => r matches Err((m, x)) && x == e && m@ == self@,
            },
    {
        match f.number {
            71 => match read_i32(&f.value) {
                Ok(x) => Ok(Self { ban_text_check_result: Some(crate::steammessages_base::EBanContentCheckResult(x)), ..self }),
                Err(e) => Err((self, e)),
            },
            72 => match read_packed_i32(&f.value) {
                Ok(xs) => {
                    let mut m = self;
                    let ghost before = m.content_descriptorids@;
                    let mut es = crate::enums_productinfo::EContentDescriptorID::from_values(&xs);
                    let ghost added = es@;
                    m.content_descriptorids.append(&mut es);
                    assert(crate::enums_productinfo::EContentDescriptorID::values(m.content_descriptorids@) =~= crate::enums_productinfo::EContentDescriptorID::values(before) + crate::enums_productinfo::EContentDescriptorID::values(added));
                    Ok(m)
                },
                Err(e) => Err((self, e)),
            },
            73 => match read_fixed32(&f.value) {
                Ok(x) => Ok(Self { search_score: Some(x), ..self }),
                Err(e) => Err((self, e)),
            },
            74 => match read_u64(&f.value) {
                Ok(x) => Ok(Self { external_asset_id: Some(x), ..self }),
                Err(e) => Err((self, e)),
            },
            _ => Ok(self),
        }
    }

    /// `applied`, for the records numbered above 74.
    #[verifier::rlimit(40)]
    fn applied_18(self, f: &Field) -> (r: Result<Self, (Self, WireError)>)
        requires
            74 < f.number,
        ensures
            match Self::spec_apply(self@, f@) {
                Ok(v) => r matches Ok(m) && m@ == v,
                Err(e) => r matches Err((m, x)) && x == e && m@ == self@,
            },
    {
        match f.number {
            75 => match read_payload(&f.value) {
                Ok(b) => match crate::steammessages_publishedfile_steamclient::PublishedFileAuthorSnapshot::decode(b) {
                    Ok(x) => {
                        let mut m = self;
                        let ghost before = m.author_snapshots@;
                        m.author_snapshots.push(x);
                        assert(crate::steammessages_publishedfile_steamclient::PublishedFileAuthorSnapshot::view_all(m.author_snapshots@) =~= crate::steammessages_publishedfile_steamclient::PublishedFileAuthorSnapshot::view_all(before).push(x@));
                        Ok(m)
                    },
                    Err(e) => Err((self, e)),
                },
                Err(e) => Err((self, e)),
            },
            _ => Ok(self),
        }
    }

    /// Reads the records `bytes` holds into this message, in order. When a record does
    /// not parse or is refused, the reading stops there: the message keeps what the
    /// records before it gave, and the error is returned.
    pub fn merge(&mut self, bytes: &[u8]) -> (r: Result<(), WireError>)
        ensures
            final(self)@ == merge_run(old(self)@, bytes@, Self::apply_fn()).0,
            r == match merge_run(old(self)@, bytes@, Self::apply_fn()).1 {
                None => Ok::<(), WireError>(()),
                Some(e) => Err::<(), WireError>(e),
            },
    {
        let ghost total = merge_run(self@, bytes@, Self::apply_fn());
        let mut cur = Self::default();
        std::mem::swap(&mut cur, self);
        let mut pos: usize = 0;
        assert(bytes@.skip(0) =~= bytes@);
        while pos < bytes.len()
            invariant
                pos <= bytes@.len(),
                total == merge_run(old(self)@, bytes@, Self::apply_fn()),
                merge_run(cur@, bytes@.skip(pos as int), Self::apply_fn()) == total,
            decreases bytes@.len() - pos,
        {
            let ghost s = bytes@.skip(pos as int);
            proof {
                lemma_merge_run_step(cur@, s, Self::apply_fn());
                lemma_parse_field_len(s);
            }
            match read_field(bytes, pos) {
                Ok((f, end)) => {
                    assert(bytes@.skip(end as int) =~= s.skip((end - pos) as int));
                    match cur.applied(&f) {
                        Ok(m) => {
                            cur = m;
                        },
                        Err((m, e)) => {
                            *self = m;
                            return Err(e);
                        },
                    }
                    pos = end;
                },
                Err(e) => {
                    *self = cur;
                    return Err(e);
                },
            }
        }
        assert(bytes@.skip(pos as int) =~= Seq::<u8>::empty());
        proof {
            lemma_merge_run_empty(cur@, Self::apply_fn());
        }
        *self = cur;
        Ok(())
    }

    /// Decodes a message from its encoding.
    pub fn decode(bytes: &[u8]) -> (r: Result<Self, WireError>)
        ensures
            match Self::spec_decode(bytes@) {
                Ok(v) => r matches Ok(m) && m@ == v,
                Err(e) => r matches Err(x) && x == e,
            },
    {
        proof {
            reveal(PublishedFileDetails::spec_decode);
        }
        let mut m = Self::default();
        match m.merge(bytes) {
            Ok(()) => Ok(m),
            Err(e) => Err(e),
        }
    }

    /// The encoding of this message.
    pub fn encode_to_vec(&self) -> (r: Vec<u8>)
        ensures
            r@ == Self::spec_encode(self@),
    {
        let enc_previews = crate::steammessages_publishedfile_steamclient::published_file_details::Preview::encode_all(&self.previews);
        let enc_tags = crate::steammessages_publishedfile_steamclient::published_file_details::Tag::encode_all(&self.tags);
        let enc_children = crate::steammessages_publishedfile_steamclient::published_file_details::Child::encode_all(&self.children);
        let enc_kvtags = crate::steammessages_publishedfile_steamclient::published_file_details::KVTag::encode_all(&self.kvtags);
        let enc_vote_data = crate::steammessages_publishedfile_steamclient::published_file_details::VoteData::encode_opt(&self.vote_data);
        let enc_playtime_stats = crate::steammessages_publishedfile_steamclient::published_file_details::PlaytimeStats::encode_opt(&self.playtime_stats);
        let enc_for_sale_data = crate::steammessages_publishedfile_steamclient::published_file_details::ForSaleData::encode_opt(&self.for_sale_data);
        let val_content_descriptorids = crate::enums_productinfo::EContentDescriptorID::values_of(&self.content_descriptorids);
        let val_available_revisions = crate::steammessages_publishedfile_steamclient::EPublishedFileRevision::values_of(&self.available_revisions);
        let enc_reactions = crate::steammessages_publishedfile_steamclient::published_file_details::Reaction::encode_all(&self.reactions);
        let enc_author_snapshots = crate::steammessages_publishedfile_steamclient::PublishedFileAuthorSnapshot::encode_all(&self.author_snapshots);
        let ghost v = self@;
        let mut out: Vec<u8> = Vec::new();
        let ghost p0 = Seq::<SpecField>::empty();
        put_opt_u32(&mut out, 1, self.result);
        let ghost p1 = p0 + opt_u32(1, v.result);
        proof {
            lemma_fields_bytes_concat(p0, opt_u32(1, v.result));
        }
        put_opt_varint(&mut out, 2, self.publishedfileid);
        let ghost p2 = p1 + opt_u64(2, v.publishedfileid);
        proof {
            lemma_fields_bytes_concat(p1, opt_u64(2, v.publishedfileid));
        }
        put_opt_fixed64(&mut out, 3, self.creator);
        let ghost p3 = p2 + opt_fixed64(3, v.creator);
        proof {
            lemma_fields_bytes_concat(p2, opt_fixed64(3, v.creator));
        }
        put_opt_u32(&mut out, 4, self.creator_appid);
        let ghost p4 = p3 + opt_u32(4, v.creator_appid);
        proof {
            lemma_fields_bytes_concat(p3, opt_u32(4, v.creator_appid));
        }
        put_opt_u32(&mut out, 5, self.consumer_appid);
        let ghost p5 = p4 + opt_u32(5, v.consumer_appid);
        proof {
            lemma_fields_bytes_concat(p4, opt_u32(5, v.consumer_appid));
        }
        put_opt_u32(&mut out, 6, self.consumer_shortcutid);
        let ghost p6 = p5 + opt_u32(6, v.consumer_shortcutid);
        proof {
            lemma_fields_bytes_concat(p5, opt_u32(6, v.consumer_shortcutid));
        }
        put_opt_string(&mut out, 7, &self.filename);
        let ghost p7 = p6 + opt_string(7, v.filename);
        proof {
            lemma_fields_bytes_concat(p6, opt_string(7, v.filename));
        }
        put_opt_varint(&mut out, 8, self.file_size);
        let ghost p8 = p7 + opt_u64(8, v.file_size);
        proof {
            lemma_fields_bytes_concat(p7, opt_u64(8, v.file_size));
        }
        put_opt_varint(&mut out, 9, self.preview_file_size);
        let ghost p9 = p8 + opt_u64(9, v.preview_file_size);
        proof {
            lemma_fields_bytes_concat(p8, opt_u64(9, v.preview_file_size));
        }
        put_opt_string(&mut out, 10, &self.file_url);
        let ghost p10 = p9 + opt_string(10, v.file_url);
        proof {
            lemma_fields_bytes_concat(p9, opt_string(10, v.file_url));
        }
        put_opt_string(&mut out, 11, &self.preview_url);
        let ghost p11 = p10 + opt_string(11, v.preview_url);
        proof {
            lemma_fields_bytes_concat(p10, opt_string(11, v.preview_url));
        }
        put_opt_string(&mut out, 12, &self.youtubevideoid);
        let ghost p12 = p11 + opt_string(12, v.youtubevideoid);
        proof {
            lemma_fields_bytes_concat(p11, opt_string(12, v.youtubevideoid));
        }
        put_opt_string(&mut out, 13, &self.url);
        let ghost p13 = p12 + opt_string(13, v.url);
        proof {
            lemma_fields_bytes_concat(p12, opt_string(13, v.url));
        }
        put_opt_fixed64(&mut out, 14, self.hcontent_file);
        let ghost p14 = p13 + opt_fixed64(14, v.hcontent_file);
        proof {
            lemma_fields_bytes_concat(p13, opt_fixed64(14, v.hcontent_file));
        }
        put_opt_fixed64(&mut out, 15, self.hcontent_preview);
        let ghost p15 = p14 + opt_fixed64(15, v.hcontent_preview);
        proof {
            lemma_fields_bytes_concat(p14, opt_fixed64(15, v.hcontent_preview));
        }
        put_opt_string(&mut out, 16, &self.title);
        let ghost p16 = p15 + opt_string(16, v.title);
        proof {
            lemma_fields_bytes_concat(p15, opt_string(16, v.title));
        }
        put_opt_string(&mut out, 17, &self.file_description);
        let ghost p17 = p16 + opt_string(17, v.file_description);
        proof {
            lemma_fields_bytes_concat(p16, opt_string(17, v.file_description));
        }
        put_opt_string(&mut out, 18, &self.short_description);
        let ghost p18 = p17 + opt_string(18, v.short_description);
        proof {
            lemma_fields_bytes_concat(p17, opt_string(18, v.short_description));
        }
        put_opt_u32(&mut out, 19, self.time_created);
        let ghost p19 = p18 + opt_u32(19, v.time_created);
        proof {
            lemma_fields_bytes_concat(p18, opt_u32(19, v.time_created));
        }
        put_opt_u32(&mut out, 20, self.time_updated);
        let ghost p20 = p19 + opt_u32(20, v.time_updated);
        proof {
            lemma_fields_bytes_concat(p19, opt_u32(20, v.time_updated));
        }
        put_opt_u32(&mut out, 21, self.visibility);
        let ghost p21 = p20 + opt_u32(21, v.visibility);
        proof {
            lemma_fields_bytes_concat(p20, opt_u32(21, v.visibility));
        }
        put_opt_u32(&mut out, 22, self.flags);
        let ghost p22 = p21 + opt_u32(22, v.flags);
        proof {
            lemma_fields_bytes_concat(p21, opt_u32(22, v.flags));
        }
        put_opt_bool(&mut out, 23, self.workshop_file);
        let ghost p23 = p22 + opt_bool(23, v.workshop_file);
        proof {
            lemma_fields_bytes_concat(p22, opt_bool(23, v.workshop_file));
        }
        put_opt_bool(&mut out, 24, self.workshop_accepted);
        let ghost p24 = p23 + opt_bool(24, v.workshop_accepted);
        proof {
            lemma_fields_bytes_concat(p23, opt_bool(24, v.workshop_accepted));
        }
        put_opt_bool(&mut out, 25, self.show_subscribe_all);
        let ghost p25 = p24 + opt_bool(25, v.show_subscribe_all);
        proof {
            lemma_fields_bytes_concat(p24, opt_bool(25, v.show_subscribe_all));
        }
        put_opt_i32(&mut out, 26, self.num_comments_developer);
        let ghost p26 = p25 + opt_i32(26, v.num_comments_developer);
        proof {
            lemma_fields_bytes_concat(p25, opt_i32(26, v.num_comments_developer));
        }
        put_opt_i32(&mut out, 27, self.num_comments_public);
        let ghost p27 = p26 + opt_i32(27, v.num_comments_public);
        proof {
            lemma_fields_bytes_concat(p26, opt_i32(27, v.num_comments_public));
        }
        put_opt_bool(&mut out, 28, self.banned);
        let ghost p28 = p27 + opt_bool(28, v.banned);
        proof {
            lemma_fields_bytes_concat(p27, opt_bool(28, v.banned));
        }
        put_opt_string(&mut out, 29, &self.ban_reason);
        let ghost p29 = p28 + opt_string(29, v.ban_reason);
        proof {
            lemma_fields_bytes_concat(p28, opt_string(29, v.ban_reason));
        }
        put_opt_fixed64(&mut out, 30, self.banner);
        let ghost p30 = p29 + opt_fixed64(30, v.banner);
        proof {
            lemma_fields_bytes_concat(p29, opt_fixed64(30, v.banner));
        }
        put_opt_bool(&mut out, 31, self.can_be_deleted);
        let ghost p31 = p30 + opt_bool(31, v.can_be_deleted);
        proof {
            lemma_fields_bytes_concat(p30, opt_bool(31, v.can_be_deleted));
        }
        put_opt_bool(&mut out, 32, self.incompatible);
        let ghost p32 = p31 + opt_bool(32, v.incompatible);
        proof {
            lemma_fields_bytes_concat(p31, opt_bool(32, v.incompatible));
        }
        put_opt_string(&mut out, 33, &self.app_name);
        let ghost p33 = p32 + opt_string(33, v.app_name);
        proof {
            lemma_fields_bytes_concat(p32, opt_string(33, v.app_name));
        }
        put_opt_u32(&mut out, 34, self.file_type);
        let ghost p34 = p33 + opt_u32(34, v.file_type);
        proof {
            lemma_fields_bytes_concat(p33, opt_u32(34, v.file_type));
        }
        put_opt_bool(&mut out, 35, self.can_subscribe);
        let ghost p35 = p34 + opt_bool(35, v.can_subscribe);
        proof {
            lemma_fields_bytes_concat(p34, opt_bool(35, v.can_subscribe));
        }
        put_opt_u32(&mut out, 36, self.subscriptions);
        let ghost p36 = p35 + opt_u32(36, v.subscriptions);
        proof {
            lemma_fields_bytes_concat(p35, opt_u32(36, v.subscriptions));
        }
        put_opt_u32(&mut out, 37, self.favorited);
        let ghost p37 = p36 + opt_u32(37, v.favorited);
        proof {
            lemma_fields_bytes_concat(p36, opt_u32(37, v.favorited));
        }
        put_opt_u32(&mut out, 38, self.followers);
        let ghost p38 = p37 + opt_u32(38, v.followers);
        proof {
            lemma_fields_bytes_concat(p37, opt_u32(38, v.followers));
        }
        put_opt_u32(&mut out, 39, self.lifetime_subscriptions);
        let ghost p39 = p38 + opt_u32(39, v.lifetime_subscriptions);
        proof {
            lemma_fields_bytes_concat(p38, opt_u32(39, v.lifetime_subscriptions));
        }
        put_opt_u32(&mut out, 40, self.lifetime_favorited);
        let ghost p40 = p39 + opt_u32(40, v.lifetime_favorited);
        proof {
            lemma_fields_bytes_concat(p39, opt_u32(40, v.lifetime_favorited));
        }
        put_opt_u32(&mut out, 41, self.lifetime_followers);
        let ghost p41 = p40 + opt_u32(41, v.lifetime_followers);
        proof {
            lemma_fields_bytes_concat(p40, opt_u32(41, v.lifetime_followers));
        }
        put_opt_varint(&mut out, 62, self.lifetime_playtime);
        let ghost p42 = p41 + opt_u64(62, v.lifetime_playtime);
        proof {
            lemma_fields_bytes_concat(p41, opt_u64(62, v.lifetime_playtime));
        }
        put_opt_varint(&mut out, 63, self.lifetime_playtime_sessions);
        let ghost p43 = p42 + opt_u64(63, v.lifetime_playtime_sessions);
        proof {
            lemma_fields_bytes_concat(p42, opt_u64(63, v.lifetime_playtime_sessions));
        }
        put_opt_u32(&mut out, 42, self.views);
        let ghost p44 = p43 + opt_u32(42, v.views);
        proof {
            lemma_fields_bytes_concat(p43, opt_u32(42, v.views));
        }
        put_opt_u32(&mut out, 43, self.image_width);
        let ghost p45 = p44 + opt_u32(43, v.image_width);
        proof {
            lemma_fields_bytes_concat(p44, opt_u32(43, v.image_width));
        }
        put_opt_u32(&mut out, 44, self.image_height);
        let ghost p46 = p45 + opt_u32(44, v.image_height);
        proof {
            lemma_fields_bytes_concat(p45, opt_u32(44, v.image_height));
        }
        put_opt_string(&mut out, 45, &self.image_url);
        let ghost p47 = p46 + opt_string(45, v.image_url);
        proof {
            lemma_fields_bytes_concat(p46, opt_string(45, v.image_url));
        }
        put_opt_bool(&mut out, 46, self.spoiler_tag);
        let ghost p48 = p47 + opt_bool(46, v.spoiler_tag);
        proof {
            lemma_fields_bytes_concat(p47, opt_bool(46, v.spoiler_tag));
        }
        put_opt_u32(&mut out, 47, self.shortcutid);
        let ghost p49 = p48 + opt_u32(47, v.shortcutid);
        proof {
            lemma_fields_bytes_concat(p48, opt_u32(47, v.shortcutid));
        }
        put_opt_string(&mut out, 48, &self.shortcutname);
        let ghost p50 = p49 + opt_string(48, v.shortcutname);
        proof {
            lemma_fields_bytes_concat(p49, opt_string(48, v.shortcutname));
        }
        put_opt_u32(&mut out, 49, self.num_children);
        let ghost p51 = p50 + opt_u32(49, v.num_children);
        proof {
            lemma_fields_bytes_concat(p50, opt_u32(49, v.num_children));
        }
        put_opt_u32(&mut out, 50, self.num_reports);
        let ghost p52 = p51 + opt_u32(50, v.num_reports);
        proof {
            lemma_fields_bytes_concat(p51, opt_u32(50, v.num_reports));
        }
        put_rep_bytes(&mut out, 51, &enc_previews);
        let ghost p53 = p52 + rep_bytes(51, crate::steammessages_publishedfile_steamclient::published_file_details::Preview::spec_encode_all(v.previews));
        proof {
            lemma_fields_bytes_concat(p52, rep_bytes(51, crate::steammessages_publishedfile_steamclient::published_file_details::Preview::spec_encode_all(v.previews)));
        }
        put_rep_bytes(&mut out, 52, &enc_tags);
        let ghost p54 = p53 + rep_bytes(52, crate::steammessages_publishedfile_steamclient::published_file_details::Tag::spec_encode_all(v.tags));
        proof {
            lemma_fields_bytes_concat(p53, rep_bytes(52, crate::steammessages_publishedfile_steamclient::published_file_details::Tag::spec_encode_all(v.tags)));
        }
        put_rep_bytes(&mut out, 53, &enc_children);
        let ghost p55 = p54 + rep_bytes(53, crate::steammessages_publishedfile_steamclient::published_file_details::Child::spec_encode_all(v.children));
        proof {
            lemma_fields_bytes_concat(p54, rep_bytes(53, crate::steammessages_publishedfile_steamclient::published_file_details::Child::spec_encode_all(v.children)));
        }
        put_rep_bytes(&mut out, 54, &enc_kvtags);
        let ghost p56 = p55 + rep_bytes(54, crate::steammessages_publishedfile_steamclient::published_file_details::KVTag::spec_encode_all(v.kvtags));
        proof {
            lemma_fields_bytes_concat(p55, rep_bytes(54, crate::steammessages_publishedfile_steamclient::published_file_details::KVTag::spec_encode_all(v.kvtags)));
        }
        put_opt_bytes(&mut out, 55, &enc_vote_data);
        let ghost p57 = p56 + opt_bytes(55, crate::steammessages_publishedfile_steamclient::published_file_details::VoteData::spec_encode_opt(v.vote_data));
        proof {
            lemma_fields_bytes_concat(p56, opt_bytes(55, crate::steammessages_publishedfile_steamclient::published_file_details::VoteData::spec_encode_opt(v.vote_data)));
        }
        put_opt_bytes(&mut out, 64, &enc_playtime_stats);
        let ghost p58 = p57 + opt_bytes(64, crate::steammessages_publishedfile_steamclient::published_file_details::PlaytimeStats::spec_encode_opt(v.playtime_stats));
        proof {
            lemma_fields_bytes_concat(p57, opt_bytes(64, crate::steammessages_publishedfile_steamclient::published_file_details::PlaytimeStats::spec_encode_opt(v.playtime_stats)));
        }
        put_opt_u32(&mut out, 56, self.time_subscribed);
        let ghost p59 = p58 + opt_u32(56, v.time_subscribed);
        proof {
            lemma_fields_bytes_concat(p58, opt_u32(56, v.time_subscribed));
        }
        put_opt_bytes(&mut out, 57, &enc_for_sale_data);
        let ghost p60 = p59 + opt_bytes(57, crate::steammessages_publishedfile_steamclient::published_file_details::ForSaleData::spec_encode_opt(v.for_sale_data));
        proof {
            lemma_fields_bytes_concat(p59, opt_bytes(57, crate::steammessages_publishedfile_steamclient::published_file_details::ForSaleData::spec_encode_opt(v.for_sale_data)));
        }
        put_opt_string(&mut out, 58, &self.metadata);
        let ghost p61 = p60 + opt_string(58, v.metadata);
        proof {
            lemma_fields_bytes_concat(p60, opt_string(58, v.metadata));
        }
        put_opt_i32(&mut out, 61, self.language);
        let ghost p62 = p61 + opt_i32(61, v.language);
        proof {
            lemma_fields_bytes_concat(p61, opt_i32(61, v.language));
        }
        put_opt_bool(&mut out, 65, self.maybe_inappropriate_sex);
        let ghost p63 = p62 + opt_bool(65, v.maybe_inappropriate_sex);
        proof {
            lemma_fields_bytes_concat(p62, opt_bool(65, v.maybe_inappropriate_sex));
        }
        put_opt_bool(&mut out, 66, self.maybe_inappropriate_violence);
        let ghost p64 = p63 + opt_bool(66, v.maybe_inappropriate_violence);
        proof {
            lemma_fields_bytes_concat(p63, opt_bool(66, v.maybe_inappropriate_violence));
        }
        put_rep_i32(&mut out, 72, &val_content_descriptorids);
        let ghost p65 = p64 + rep_i32(72, v.content_descriptorids);
        proof {
            lemma_fields_bytes_concat(p64, rep_i32(72, v.content_descriptorids));
        }
        put_opt_varint(&mut out, 67, self.revision_change_number);
        let ghost p66 = p65 + opt_u64(67, v.revision_change_number);
        proof {
            lemma_fields_bytes_concat(p65, opt_u64(67, v.revision_change_number));
        }
        put_opt_i32(&mut out, 68, match self.revision { Some(e) => Some(e.0), None => None });
        let ghost p67 = p66 + opt_i32(68, v.revision);
        proof {
            lemma_fields_bytes_concat(p66, opt_i32(68, v.revision));
        }
        put_rep_i32(&mut out, 69, &val_available_revisions);
        let ghost p68 = p67 + rep_i32(69, v.available_revisions);
        proof {
            lemma_fields_bytes_concat(p67, rep_i32(69, v.available_revisions));
        }
        put_rep_bytes(&mut out, 70, &enc_reactions);
        let ghost p69 = p68 + rep_bytes(70, crate::steammessages_publishedfile_steamclient::published_file_details::Reaction::spec_encode_all(v.reactions));
        proof {
            lemma_fields_bytes_concat(p68, rep_bytes(70, crate::steammessages_publishedfile_steamclient::published_file_details::Reaction::spec_encode_all(v.reactions)));
        }
        put_opt_i32(&mut out, 71, match self.ban_text_check_result { Some(e) => Some(e.0), None => None });
        let ghost p70 = p69 + opt_i32(71, v.ban_text_check_result);
        proof {
            lemma_fields_bytes_concat(p69, opt_i32(71, v.ban_text_check_result));
        }
        put_opt_fixed32(&mut out, 73, self.search_score);
        let ghost p71 = p70 + opt_fixed32(73, v.search_score);
        proof {
            lemma_fields_bytes_concat(p70, opt_fixed32(73, v.search_score));
        }
        put_opt_varint(&mut out, 74, self.external_asset_id);
        let ghost p72 = p71 + opt_u64(74, v.external_asset_id);
        proof {
            lemma_fields_bytes_concat(p71, opt_u64(74, v.external_asset_id));
        }
        put_rep_bytes(&mut out, 75, &enc_author_snapshots);
        let ghost p73 = p72 + rep_bytes(75, crate::steammessages_publishedfile_steamclient::PublishedFileAuthorSnapshot::spec_encode_all(v.author_snapshots));
        proof {
            lemma_fields_bytes_concat(p72, rep_bytes(75, crate::steammessages_publishedfile_steamclient::PublishedFileAuthorSnapshot::spec_encode_all(v.author_snapshots)));
        }
        proof {
            reveal(PublishedFileDetails::spec_encode);
        }
        assert(p73 == Self::spec_fields(v));
        out
    }

    /// Appends the encoding of this message to `out`.
    pub fn encode_raw(&self, out: &mut Vec<u8>)
        ensures
            final(out)@ == old(out)@ + Self::spec_encode(self@),
    {
        let mut b = self.encode_to_vec();
        out.append(&mut b);
    }

    /// The first `k` fields of `v`, the others as a fresh message has them.
    #[verifier::opaque]
    pub open spec fn spec_prefix(v: SpecPublishedFileDetails, k: int) -> SpecPublishedFileDetails {
        SpecPublishedFileDetails {
            result: if 1 <= k { v.result } else { None },
            publishedfileid: if 2 <= k { v.publishedfileid } else { None },
            creator: if 3 <= k { v.creator } else { None },
            creator_appid: if 4 <= k { v.creator_appid } else { None },
            consumer_appid: if 5 <= k { v.consumer_appid } else { None },
            consumer_shortcutid: if 6 <= k { v.consumer_shortcutid } else { None },
            filename: if 7 <= k { v.filename } else { None },
            file_size: if 8 <= k { v.file_size } else { None },
            preview_file_size: if 9 <= k { v.preview_file_size } else { None },
            file_url: if 10 <= k { v.file_url } else { None },
            preview_url: if 11 <= k { v.preview_url } else { None },
            youtubevideoid: if 12 <= k { v.youtubevideoid } else { None },
            url: if 13 <= k { v.url } else { None },
            hcontent_file: if 14 <= k { v.hcontent_file } else { None },
            hcontent_preview: if 15 <= k { v.hcontent_preview } else { None },
            title: if 16 <= k { v.title } else { None },
            file_description: if 17 <= k { v.file_description } else { None },
            short_description: if 18 <= k { v.short_description } else { None },
            time_created: if 19 <= k { v.time_created } else { None },
            time_updated: if 20 <= k { v.time_updated } else { None },
            visibility: if 21 <= k { v.visibility } else { None },
            flags: if 22 <= k { v.flags } else { None },
            workshop_file: if 23 <= k { v.workshop_file } else { None },
            workshop_accepted: if 24 <= k { v.workshop_accepted } else { None },
            show_subscribe_all: if 25 <= k { v.show_subscribe_all } else { None },
            num_comments_developer: if 26 <= k { v.num_comments_developer } else { None },
            num_comments_public: if 27 <= k { v.num_comments_public } else { None },
            banned: if 28 <= k { v.banned } else { None },
            ban_reason: if 29 <= k { v.ban_reason } else { None },
            banner: if 30 <= k { v.banner } else { None },
            can_be_deleted: if 31 <= k { v.can_be_deleted } else { None },
            incompatible: if 32 <= k { v.incompatible } else { None },
            app_name: if 33 <= k { v.app_name } else { None },
            file_type: if 34 <= k { v.file_type } else { None },
            can_subscribe: if 35 <= k { v.can_subscribe } else { None },
            subscriptions: if 36 <= k { v.subscriptions } else { None },
            favorited: if 37 <= k { v.favorited } else { None },
            followers: if 38 <= k { v.followers } else { None },
            lifetime_subscriptions: if 39 <= k { v.lifetime_subscriptions } else { None },
            lifetime_favorited: if 40 <= k { v.lifetime_favorited } else { None },
            lifetime_followers: if 41 <= k { v.lifetime_followers } else { None },
            lifetime_playtime: if 42 <= k { v.lifetime_playtime } else { None },
            lifetime_playtime_sessions: if 43 <= k { v.lifetime_playtime_sessions } else { None },
            views: if 44 <= k { v.views } else { None },
            image_width: if 45 <= k { v.image_width } else { None },
            image_height: if 46 <= k { v.image_height } else { None },
            image_url: if 47 <= k { v.image_url } else { None },
            spoiler_tag: if 48 <= k { v.spoiler_tag } else { None },
            shortcutid: if 49 <= k { v.shortcutid } else { None },
            shortcutname: if 50 <= k { v.shortcutname } else { None },
            num_children: if 51 <= k { v.num_children } else { None },
            num_reports: if 52 <= k { v.num_reports } else { None },
            previews: if 53 <= k { v.previews } else { Seq::empty() },
            tags: if 54 <= k { v.tags } else { Seq::empty() },
            children: if 55 <= k { v.children } else { Seq::empty() },
            kvtags: if 56 <= k { v.kvtags } else { Seq::empty() },
            vote_data: if 57 <= k { v.vote_data } else { None },
            playtime_stats: if 58 <= k { v.playtime_stats } else { None },
            time_subscribed: if 59 <= k { v.time_subscribed } else { None },
            for_sale_data: if 60 <= k { v.for_sale_data } else { None },
            metadata: if 61 <= k { v.metadata } else { None },
            language: if 62 <= k { v.language } else { None },
            maybe_inappropriate_sex: if 63 <= k { v.maybe_inappropriate_sex } else { None },
            maybe_inappropriate_violence: if 64 <= k { v.maybe_inappropriate_violence } else { None },
            content_descriptorids: if 65 <= k { v.content_descriptorids } else { Seq::empty() },
            revision_change_number: if 66 <= k { v.revision_change_number } else { None },
            revision: if 67 <= k { v.revision } else { None },
            available_revisions: if 68 <= k { v.available_revisions } else { Seq::empty() },
            reactions: if 69 <= k { v.reactions } else { Seq::empty() },
            ban_text_check_result: if 70 <= k { v.ban_text_check_result } else { None },
            search_score: if 71 <= k { v.search_score } else { None },
            external_asset_id: if 72 <= k { v.external_asset_id } else { None },
            author_snapshots: if 73 <= k { v.author_snapshots } else { Seq::empty() },
        }
    }

    /// Reading field 1 back, after the fields before it.
    proof fn lemma_field_result(v: SpecPublishedFileDetails)
        ensures
            fold_fields(Self::spec_prefix(v, 0), opt_u32(1, v.result), Self::apply_fn())
                == Ok::<SpecPublishedFileDetails, WireError>(Self::spec_prefix(v, 1)),
    {
        reveal(PublishedFileDetails::spec_prefix);
        reveal(opt_u32);
        let apply = Self::apply_fn();
        let s = Self::spec_prefix(v, 0);
        lemma_fold_opt(s, 1, match v.result { Some(x) => Some(enc_u32(x)), None => None }, apply);
        if let Some(x) = v.result {
            lemma_u32_roundtrip(x);
        }
        assert(SpecPublishedFileDetails { result: v.result, ..s } == Self::spec_prefix(v, 1));
    }

    /// Reading field 2 back, after the fields before it.
    proof fn lemma_field_publishedfileid(v: SpecPublishedFileDetails)
        ensures
            fold_fields(Self::spec_prefix(v, 1), opt_u64(2, v.publishedfileid), Self::apply_fn())
                == Ok::<SpecPublishedFileDetails, WireError>(Self::spec_prefix(v, 2)),
    {
        reveal(PublishedFileDetails::spec_prefix);
        reveal(opt_u64);
        let apply = Self::apply_fn();
        let s = Self::spec_prefix(v, 1);
        lemma_fold_opt(s, 2, match v.publishedfileid { Some(x) => Some(enc_u64(x)), None => None }, apply);
        if let Some(x) = v.publishedfileid {
            lemma_u64_roundtrip(x);
        }
        assert(SpecPublishedFileDetails { publishedfileid: v.publishedfileid, ..s } == Self::spec_prefix(v, 2));
    }

    /// Reading field 3 back, after the fields before it.
    proof fn lemma_field_creator(v: SpecPublishedFileDetails)
        ensures
            fold_fields(Self::spec_prefix(v, 2), opt_fixed64(3, v.creator), Self::apply_fn())
                == Ok::<SpecPublishedFileDetails, WireError>(Self::spec_prefix(v, 3)),
    {
        reveal(PublishedFileDetails::spec_prefix);
        reveal(opt_fixed64);
        let apply = Self::apply_fn();
        let s = Self::spec_prefix(v, 2);
        lemma_fold_opt(s, 3, match v.creator { Some(x) => Some(enc_fixed64(x)), None => None }, apply);
        if let Some(x) = v.creator {
            lemma_u64_roundtrip(x);
        }
        assert(SpecPublishedFileDetails { creator: v.creator, ..s } == Self::spec_prefix(v, 3));
    }

    /// Reading field 4 back, after the fields before it.
    proof fn lemma_field_creator_appid(v: SpecPublishedFileDetails)
        ensures
            fold_fields(Self::spec_prefix(v, 3), opt_u32(4, v.creator_appid), Self::apply_fn())
                == Ok::<SpecPublishedFileDetails, WireError>(Self::spec_prefix(v, 4)),
    {
        reveal(PublishedFileDetails::spec_prefix);
        reveal(opt_u32);
        let apply = Self::apply_fn();
        let s = Self::spec_prefix(v, 3);
        lemma_fold_opt(s, 4, match v.creator_appid { Some(x) => Some(enc_u32(x)), None => None }, apply);
        if let Some(x) = v.creator_appid {
            lemma_u32_roundtrip(x);
        }
        assert(SpecPublishedFileDetails { creator_appid: v.creator_appid, ..s } == Self::spec_prefix(v, 4));
    }

    /// Reading field 5 back, after the fields before it.
    proof fn lemma_field_consumer_appid(v: SpecPublishedFileDetails)
        ensures
            fold_fields(Self::spec_prefix(v, 4), opt_u32(5, v.consumer_appid), Self::apply_fn())
                == Ok::<SpecPublishedFileDetails, WireError>(Self::spec_prefix(v, 5)),
    {
        reveal(PublishedFileDetails::spec_prefix);
        reveal(opt_u32);
        let apply = Self::apply_fn();
        let s = Self::spec_prefix(v, 4);
        lemma_fold_opt(s, 5, match v.consumer_appid { Some(x) => Some(enc_u32(x)), None => None }, apply);
        if let Some(x) = v.consumer_appid {
            lemma_u32_roundtrip(x);
        }
        assert(SpecPublishedFileDetails { consumer_appid: v.consumer_appid, ..s } == Self::spec_prefix(v, 5));
    }

    /// Reading field 6 back, after the fields before it.
    proof fn lemma_field_consumer_shortcutid(v: SpecPublishedFileDetails)
        ensures
            fold_fields(Self::spec_prefix(v, 5), opt_u32(6, v.consumer_shortcutid), Self::apply_fn())
                == Ok::<SpecPublishedFileDetails, WireError>(Self::spec_prefix(v, 6)),
    {
        reveal(PublishedFileDetails::spec_prefix);
        reveal(opt_u32);
        let apply = Self::apply_fn();
        let s = Self::spec_prefix(v, 5);
        lemma_fold_opt(s, 6, match v.consumer_shortcutid { Some(x) => Some(enc_u32(x)), None => None }, apply);
        if let Some(x) = v.consumer_shortcutid {
            lemma_u32_roundtrip(x);
        }
        assert(SpecPublishedFileDetails { consumer_shortcutid: v.consumer_shortcutid, ..s } == Self::spec_prefix(v, 6));
    }

    /// Reading field 7 back, after the fields before it.
    proof fn lemma_field_filename(v: SpecPublishedFileDetails)
        ensures
            fold_fields(Self::spec_prefix(v, 6), opt_string(7, v.filename), Self::apply_fn())
                == Ok::<SpecPublishedFileDetails, WireError>(Self::spec_prefix(v, 7)),
    {
        reveal(PublishedFileDetails::spec_prefix);
        reveal(opt_string);
        let apply = Self::apply_fn();
        let s = Self::spec_prefix(v, 6);
        lemma_fold_opt(s, 7, match v.filename { Some(x) => Some(enc_string(x)), None => None }, apply);
        if let Some(x) = v.filename {
            lemma_string_roundtrip(x);
        }
        assert(SpecPublishedFileDetails { filename: v.filename, ..s } == Self::spec_prefix(v, 7));
    }

    /// Reading field 8 back, after the fields before it.
    proof fn lemma_field_file_size(v: SpecPublishedFileDetails)
        ensures
            fold_fields(Self::spec_prefix(v, 7), opt_u64(8, v.file_size), Self::apply_fn())
                == Ok::<SpecPublishedFileDetails, WireError>(Self::spec_prefix(v, 8)),
    {
        reveal(PublishedFileDetails::spec_prefix);
        reveal(opt_u64);
        let apply = Self::apply_fn();
        let s = Self::spec_prefix(v, 7);
        lemma_fold_opt(s, 8, match v.file_size { Some(x) => Some(enc_u64(x)), None => None }, apply);
        if let Some(x) = v.file_size {
            lemma_u64_roundtrip(x);
        }
        assert(SpecPublishedFileDetails { file_size: v.file_size, ..s } == Self::spec_prefix(v, 8));
    }

    /// Reading field 9 back, after the fields before it.
    proof fn lemma_field_preview_file_size(v: SpecPublishedFileDetails)
        ensures
            fold_fields(Self::spec_prefix(v, 8), opt_u64(9, v.preview_file_size), Self::apply_fn())
                == Ok::<SpecPublishedFileDetails, WireError>(Self::spec_prefix(v, 9)),
    {
        reveal(PublishedFileDetails::spec_prefix);
        reveal(opt_u64);
        let apply = Self::apply_fn();
        let s = Self::spec_prefix(v, 8);
        lemma_fold_opt(s, 9, match v.preview_file_size { Some(x) => Some(enc_u64(x)), None => None }, apply);
        if let Some(x) = v.preview_file_size {
            lemma_u64_roundtrip(x);
        }
        assert(SpecPublishedFileDetails { preview_file_size: v.preview_file_size, ..s } == Self::spec_prefix(v, 9));
    }

    /// Reading field 10 back, after the fields before it.
    proof fn lemma_field_file_url(v: SpecPublishedFileDetails)
        ensures
            fold_fields(Self::spec_prefix(v, 9), opt_string(10, v.file_url), Self::apply_fn())
                == Ok::<SpecPublishedFileDetails, WireError>(Self::spec_prefix(v, 10)),
    {
        reveal(PublishedFileDetails::spec_prefix);
        reveal(opt_string);
        let apply = Self::apply_fn();
        let s = Self::spec_prefix(v, 9);
        lemma_fold_opt(s, 10, match v.file_url { Some(x) => Some(enc_string(x)), None => None }, apply);
        if let Some(x) = v.file_url {
            lemma_string_roundtrip(x);
        }
        assert(SpecPublishedFileDetails { file_url: v.file_url, ..s } == Self::spec_prefix(v, 10));
    }

    /// Reading field 11 back, after the fields before it.
    proof fn lemma_field_preview_url(v: SpecPublishedFileDetails)
        ensures
            fold_fields(Self::spec_prefix(v, 10), opt_string(11, v.preview_url), Self::apply_fn())
                == Ok::<SpecPublishedFileDetails, WireError>(Self::spec_prefix(v, 11)),
    {
        reveal(PublishedFileDetails::spec_prefix);
        reveal(opt_string);
        let apply = Self::apply_fn();
        let s = Self::spec_prefix(v, 10);
        lemma_fold_opt(s, 11, match v.preview_url { Some(x) => Some(enc_string(x)), None => None }, apply);
        if let Some(x) = v.preview_url {
            lemma_string_roundtrip(x);
        }
        assert(SpecPublishedFileDetails { preview_url: v.preview_url, ..s } == Self::spec_prefix(v, 11));
    }

    /// Reading field 12 back, after the fields before it.
    proof fn lemma_field_youtubevideoid(v: SpecPublishedFileDetails)
        ensures
            fold_fields(Self::spec_prefix(v, 11), opt_string(12, v.youtubevideoid), Self::apply_fn())
                == Ok::<SpecPublishedFileDetails, WireError>(Self::spec_prefix(v, 12)),
    {
        reveal(PublishedFileDetails::spec_prefix);
        reveal(opt_string);
        let apply = Self::apply_fn();
        let s = Self::spec_prefix(v, 11);
        lemma_fold_opt(s, 12, match v.youtubevideoid { Some(x) => Some(enc_string(x)), None => None }, apply);
        if let Some(x) = v.youtubevideoid {
            lemma_string_roundtrip(x);
        }
        assert(SpecPublishedFileDetails { youtubevideoid: v.youtubevideoid, ..s } == Self::spec_prefix(v, 12));
    }

    /// Reading field 13 back, after the fields before it.
    proof fn lemma_field_url(v: SpecPublishedFileDetails)
        ensures
            fold_fields(Self::spec_prefix(v, 12), opt_string(13, v.url), Self::apply_fn())
                == Ok::<SpecPublishedFileDetails, WireError>(Self::spec_prefix(v, 13)),
    {
        reveal(PublishedFileDetails::spec_prefix);
        reveal(opt_string);
        let apply = Self::apply_fn();
        let s = Self::spec_prefix(v, 12);
        lemma_fold_opt(s, 13, match v.url { Some(x) => Some(enc_string(x)), None => None }, apply);
        if let Some(x) = v.url {
            lemma_string_roundtrip(x);
        }
        assert(SpecPublishedFileDetails { url: v.url, ..s } == Self::spec_prefix(v, 13));
    }

    /// Reading field 14 back, after the fields before it.
    proof fn lemma_field_hcontent_file(v: SpecPublishedFileDetails)
        ensures
            fold_fields(Self::spec_prefix(v, 13), opt_fixed64(14, v.hcontent_file), Self::apply_fn())
                == Ok::<SpecPublishedFileDetails, WireError>(Self::spec_prefix(v, 14)),
    {
        reveal(PublishedFileDetails::spec_prefix);
        reveal(opt_fixed64);
        let apply = Self::apply_fn();
        let s = Self::spec_prefix(v, 13);
        lemma_fold_opt(s, 14, match v.hcontent_file { Some(x) => Some(enc_fixed64(x)), None => None }, apply);
        if let Some(x) = v.hcontent_file {
            lemma_u64_roundtrip(x);
        }
        assert(SpecPublishedFileDetails { hcontent_file: v.hcontent_file, ..s } == Self::spec_prefix(v, 14));
    }

    /// Reading field 15 back, after the fields before it.
    proof fn lemma_field_hcontent_preview(v: SpecPublishedFileDetails)
        ensures
            fold_fields(Self::spec_prefix(v, 14), opt_fixed64(15, v.hcontent_preview), Self::apply_fn())
                == Ok::<SpecPublishedFileDetails, WireError>(Self::spec_prefix(v, 15)),
    {
        reveal(PublishedFileDetails::spec_prefix);
        reveal(opt_fixed64);
        let apply = Self::apply_fn();
        let s = Self::spec_prefix(v, 14);
        lemma_fold_opt(s, 15, match v.hcontent_preview { Some(x) => Some(enc_fixed64(x)), None => None }, apply);
        if let Some(x) = v.hcontent_preview {
            lemma_u64_roundtrip(x);
        }
        assert(SpecPublishedFileDetails { hcontent_preview: v.hcontent_preview, ..s } == Self::spec_prefix(v, 15));
    }

    /// Reading field 16 back, after the fields before it.
    proof fn lemma_field_title(v: SpecPublishedFileDetails)
        ensures
            fold_fields(Self::spec_prefix(v, 15), opt_string(16, v.title), Self::apply_fn())
                == Ok::<SpecPublishedFileDetails, WireError>(Self::spec_prefix(v, 16)),
    {
        reveal(PublishedFileDetails::spec_prefix);
        reveal(opt_string);
        let apply = Self::apply_fn();
        let s = Self::spec_prefix(v, 15);
        lemma_fold_opt(s, 16, match v.title { Some(x) => Some(enc_string(x)), None => None }, apply);
        if let Some(x) = v.title {
            lemma_string_roundtrip(x);
        }
        assert(SpecPublishedFileDetails { title: v.title, ..s } == Self::spec_prefix(v, 16));
    }

    /// Reading field 17 back, after the fields before it.
    proof fn lemma_field_file_description(v: SpecPublishedFileDetails)
        ensures
            fold_fields(Self::spec_prefix(v, 16), opt_string(17, v.file_description), Self::apply_fn())
                == Ok::<SpecPublishedFileDetails, WireError>(Self::spec_prefix(v, 17)),
    {
        reveal(PublishedFileDetails::spec_prefix);
        reveal(opt_string);
        let apply = Self::apply_fn();
        let s = Self::spec_prefix(v, 16);
        lemma_fold_opt(s, 17, match v.file_description { Some(x) => Some(enc_string(x)), None => None }, apply);
        if let Some(x) = v.file_description {
            lemma_string_roundtrip(x);
        }
        assert(SpecPublishedFileDetails { file_description: v.file_description, ..s } == Self::spec_prefix(v, 17));
    }

    /// Reading field 18 back, after the fields before it.
    proof fn lemma_field_short_description(v: SpecPublishedFileDetails)
        ensures
            fold_fields(Self::spec_prefix(v, 17), opt_string(18, v.short_description), Self::apply_fn())
                == Ok::<SpecPublishedFileDetails, WireError>(Self::spec_prefix(v, 18)),
    {
        reveal(PublishedFileDetails::spec_prefix);
        reveal(opt_string);
        let apply = Self::apply_fn();
        let s = Self::spec_prefix(v, 17);
        lemma_fold_opt(s, 18, match v.short_description { Some(x) => Some(enc_string(x)), None => None }, apply);
        if let Some(x) = v.short_description {
            lemma_string_roundtrip(x);
        }
        assert(SpecPublishedFileDetails { short_description: v.short_description, ..s } == Self::spec_prefix(v, 18));
    }

    /// Reading field 19 back, after the fields before it.
    proof fn lemma_field_time_created(v: SpecPublishedFileDetails)
        ensures
            fold_fields(Self::spec_prefix(v, 18), opt_u32(19, v.time_created), Self::apply_fn())
                == Ok::<SpecPublishedFileDetails, WireError>(Self::spec_prefix(v, 19)),
    {
        reveal(PublishedFileDetails::spec_prefix);
        reveal(opt_u32);
        let apply = Self::apply_fn();
        let s = Self::spec_prefix(v, 18);
        lemma_fold_opt(s, 19, match v.time_created { Some(x) => Some(enc_u32(x)), None => None }, apply);
        if let Some(x) = v.time_created {
            lemma_u32_roundtrip(x);
        }
        assert(SpecPublishedFileDetails { time_created: v.time_created, ..s } == Self::spec_prefix(v, 19));
    }

    /// Reading field 20 back, after the fields before it.
    proof fn lemma_field_time_updated(v: SpecPublishedFileDetails)
        ensures
            fold_fields(Self::spec_prefix(v, 19), opt_u32(20, v.time_updated), Self::apply_fn())
                == Ok::<SpecPublishedFileDetails, WireError>(Self::spec_prefix(v, 20)),
    {
        reveal(PublishedFileDetails::spec_prefix);
        reveal(opt_u32);
        let apply = Self::apply_fn();
        let s = Self::spec_prefix(v, 19);
        lemma_fold_opt(s, 20, match v.time_updated { Some(x) => Some(enc_u32(x)), None => None }, apply);
        if let Some(x) = v.time_updated {
            lemma_u32_roundtrip(x);
        }
        assert(SpecPublishedFileDetails { time_updated: v.time_updated, ..s } == Self::spec_prefix(v, 20));
    }

    /// Reading field 21 back, after the fields before it.
    proof fn lemma_field_visibility(v: SpecPublishedFileDetails)
        ensures
            fold_fields(Self::spec_prefix(v, 20), opt_u32(21, v.visibility), Self::apply_fn())
                == Ok::<SpecPublishedFileDetails, WireError>(Self::spec_prefix(v, 21)),
    {
        reveal(PublishedFileDetails::spec_prefix);
        reveal(opt_u32);
        let apply = Self::apply_fn();
        let s = Self::spec_prefix(v, 20);
        lemma_fold_opt(s, 21, match v.visibility { Some(x) => Some(enc_u32(x)), None => None }, apply);
        if let Some(x) = v.visibility {
            lemma_u32_roundtrip(x);
        }
        assert(SpecPublishedFileDetails { visibility: v.visibility, ..s } == Self::spec_prefix(v, 21));
    }

    /// Reading field 22 back, after the fields before it.
    proof fn lemma_field_flags(v: SpecPublishedFileDetails)
        ensures
            fold_fields(Self::spec_prefix(v, 21), opt_u32(22, v.flags), Self::apply_fn())
                == Ok::<SpecPublishedFileDetails, WireError>(Self::spec_prefix(v, 22)),
    {
        reveal(PublishedFileDetails::spec_prefix);
        reveal(opt_u32);
        let apply = Self::apply_fn();
        let s = Self::spec_prefix(v, 21);
        lemma_fold_opt(s, 22, match v.flags { Some(x) => Some(enc_u32(x)), None => None }, apply);
        if let Some(x) = v.flags {
            lemma_u32_roundtrip(x);
        }
        assert(SpecPublishedFileDetails { flags: v.flags, ..s } == Self::spec_prefix(v, 22));
    }

    /// Reading field 23 back, after the fields before it.
    proof fn lemma_field_workshop_file(v: SpecPublishedFileDetails)
        ensures
            fold_fields(Self::spec_prefix(v, 22), opt_bool(23, v.workshop_file), Self::apply_fn())
                == Ok::<SpecPublishedFileDetails, WireError>(Self::spec_prefix(v, 23)),
    {
        reveal(PublishedFileDetails::spec_prefix);
        reveal(opt_bool);
        let apply = Self::apply_fn();
        let s = Self::spec_prefix(v, 22);
        lemma_fold_opt(s, 23, match v.workshop_file { Some(x) => Some(enc_bool(x)), None => None }, apply);
        assert(SpecPublishedFileDetails { workshop_file: v.workshop_file, ..s } == Self::spec_prefix(v, 23));
    }

    /// Reading field 24 back, after the fields before it.
    proof fn lemma_field_workshop_accepted(v: SpecPublishedFileDetails)
        ensures
            fold_fields(Self::spec_prefix(v, 23), opt_bool(24, v.workshop_accepted), Self::apply_fn())
                == Ok::<SpecPublishedFileDetails, WireError>(Self::spec_prefix(v, 24)),
    {
        reveal(PublishedFileDetails::spec_prefix);
        reveal(opt_bool);
        let apply = Self::apply_fn();
        let s = Self::spec_prefix(v, 23);
        lemma_fold_opt(s, 24, match v.workshop_accepted { Some(x) => Some(enc_bool(x)), None => None }, apply);
        assert(SpecPublishedFileDetails { workshop_accepted: v.workshop_accepted, ..s } == Self::spec_prefix(v, 24));
    }

    /// Reading field 25 back, after the fields before it.
    proof fn lemma_field_show_subscribe_all(v: SpecPublishedFileDetails)
        ensures
            fold_fields(Self::spec_prefix(v, 24), opt_bool(25, v.show_subscribe_all), Self::apply_fn())
                == Ok::<SpecPublishedFileDetails, WireError>(Self::spec_prefix(v, 25)),
    {
        reveal(PublishedFileDetails::spec_prefix);
        reveal(opt_bool);
        let apply = Self::apply_fn();
        let s = Self::spec_prefix(v, 24);
        lemma_fold_opt(s, 25, match v.show_subscribe_all { Some(x) => Some(enc_bool(x)), None => None }, apply);
        assert(SpecPublishedFileDetails { show_subscribe_all: v.show_subscribe_all, ..s } == Self::spec_prefix(v, 25));
    }

    /// Reading field 26 back, after the fields before it.
    proof fn lemma_field_num_comments_developer(v: SpecPublishedFileDetails)
        ensures
            fold_fields(Self::spec_prefix(v, 25), opt_i32(26, v.num_comments_developer), Self::apply_fn())
                == Ok::<SpecPublishedFileDetails, WireError>(Self::spec_prefix(v, 26)),
    {
        reveal(PublishedFileDetails::spec_prefix);
        reveal(opt_i32);
        let apply = Self::apply_fn();
        let s = Self::spec_prefix(v, 25);
        lemma_fold_opt(s, 26, match v.num_comments_developer { Some(x) => Some(enc_i32(x)), None => None }, apply);
        if let Some(x) = v.num_comments_developer {
            lemma_i32_roundtrip(x);
        }
        assert(SpecPublishedFileDetails { num_comments_developer: v.num_comments_developer, ..s } == Self::spec_prefix(v, 26));
    }

    /// Reading field 27 back, after the fields before it.
    proof fn lemma_field_num_comments_public(v: SpecPublishedFileDetails)
        ensures
            fold_fields(Self::spec_prefix(v, 26), opt_i32(27, v.num_comments_public), Self::apply_fn())
                == Ok::<SpecPublishedFileDetails, WireError>(Self::spec_prefix(v, 27)),
    {
        reveal(PublishedFileDetails::spec_prefix);
        reveal(opt_i32);
        let apply = Self::apply_fn();
        let s = Self::spec_prefix(v, 26);
        lemma_fold_opt(s, 27, match v.num_comments_public { Some(x) => Some(enc_i32(x)), None => None }, apply);
        if let Some(x) = v.num_comments_public {
            lemma_i32_roundtrip(x);
        }
        assert(SpecPublishedFileDetails { num_comments_public: v.num_comments_public, ..s } == Self::spec_prefix(v, 27));
    }

    /// Reading field 28 back, after the fields before it.
    proof fn lemma_field_banned(v: SpecPublishedFileDetails)
        ensures
            fold_fields(Self::spec_prefix(v, 27), opt_bool(28, v.banned), Self::apply_fn())
                == Ok::<SpecPublishedFileDetails, WireError>(Self::spec_prefix(v, 28)),
    {
        reveal(PublishedFileDetails::spec_prefix);
        reveal(opt_bool);
        let apply = Self::apply_fn();
        let s = Self::spec_prefix(v, 27);
        lemma_fold_opt(s, 28, match v.banned { Some(x) => Some(enc_bool(x)), None => None }, apply);
        assert(SpecPublishedFileDetails { banned: v.banned, ..s } == Self::spec_prefix(v, 28));
    }

    /// Reading field 29 back, after the fields before it.
    proof fn lemma_field_ban_reason(v: SpecPublishedFileDetails)
        ensures
            fold_fields(Self::spec_prefix(v, 28), opt_string(29, v.ban_reason), Self::apply_fn())
                == Ok::<SpecPublishedFileDetails, WireError>(Self::spec_prefix(v, 29)),
    {
        reveal(PublishedFileDetails::spec_prefix);
        reveal(opt_string);
        let apply = Self::apply_fn();
        let s = Self::spec_prefix(v, 28);
        lemma_fold_opt(s, 29, match v.ban_reason { Some(x) => Some(enc_string(x)), None => None }, apply);
        if let Some(x) = v.ban_reason {
            lemma_string_roundtrip(x);
        }
        assert(SpecPublishedFileDetails { ban_reason: v.ban_reason, ..s } == Self::spec_prefix(v, 29));
    }

    /// Reading field 30 back, after the fields before it.
    proof fn lemma_field_banner(v: SpecPublishedFileDetails)
        ensures
            fold_fields(Self::spec_prefix(v, 29), opt_fixed64(30, v.banner), Self::apply_fn())
                == Ok::<SpecPublishedFileDetails, WireError>(Self::spec_prefix(v, 30)),
    {
        reveal(PublishedFileDetails::spec_prefix);
        reveal(opt_fixed64);
        let apply = Self::apply_fn();
        let s = Self::spec_prefix(v, 29);
        lemma_fold_opt(s, 30, match v.banner { Some(x) => Some(enc_fixed64(x)), None => None }, apply);
        if let Some(x) = v.banner {
            lemma_u64_roundtrip(x);
        }
        assert(SpecPublishedFileDetails { banner: v.banner, ..s } == Self::spec_prefix(v, 30));
    }

    /// Reading field 31 back, after the fields before it.
    proof fn lemma_field_can_be_deleted(v: SpecPublishedFileDetails)
        ensures
            fold_fields(Self::spec_prefix(v, 30), opt_bool(31, v.can_be_deleted), Self::apply_fn())
                == Ok::<SpecPublishedFileDetails, WireError>(Self::spec_prefix(v, 31)),
    {
        reveal(PublishedFileDetails::spec_prefix);
        reveal(opt_bool);
        let apply = Self::apply_fn();
        let s = Self::spec_prefix(v, 30);
        lemma_fold_opt(s, 31, match v.can_be_deleted { Some(x) => Some(enc_bool(x)), None => None }, apply);
        assert(SpecPublishedFileDetails { can_be_deleted: v.can_be_deleted, ..s } == Self::spec_prefix(v, 31));
    }

    /// Reading field 32 back, after the fields before it.
    proof fn lemma_field_incompatible(v: SpecPublishedFileDetails)
        ensures
            fold_fields(Self::spec_prefix(v, 31), opt_bool(32, v.incompatible), Self::apply_fn())
                == Ok::<SpecPublishedFileDetails, WireError>(Self::spec_prefix(v, 32)),
    {
        reveal(PublishedFileDetails::spec_prefix);
        reveal(opt_bool);
        let apply = Self::apply_fn();
        let s = Self::spec_prefix(v, 31);
        lemma_fold_opt(s, 32, match v.incompatible { Some(x) => Some(enc_bool(x)), None => None }, apply);
        assert(SpecPublishedFileDetails { incompatible: v.incompatible, ..s } == Self::spec_prefix(v, 32));
    }

    /// Reading field 33 back, after the fields before it.
    proof fn lemma_field_app_name(v: SpecPublishedFileDetails)
        ensures
            fold_fields(Self::spec_prefix(v, 32), opt_string(33, v.app_name), Self::apply_fn())
                == Ok::<SpecPublishedFileDetails, WireError>(Self::spec_prefix(v, 33)),
    {
        reveal(PublishedFileDetails::spec_prefix);
        reveal(opt_string);
        let apply = Self::apply_fn();
        let s = Self::spec_prefix(v, 32);
        lemma_fold_opt(s, 33, match v.app_name { Some(x) => Some(enc_string(x)), None => None }, apply);
        if let Some(x) = v.app_name {
            lemma_string_roundtrip(x);
        }
        assert(SpecPublishedFileDetails { app_name: v.app_name, ..s } == Self::spec_prefix(v, 33));
    }

    /// Reading field 34 back, after the fields before it.
    proof fn lemma_field_file_type(v: SpecPublishedFileDetails)
        ensures
            fold_fields(Self::spec_prefix(v, 33), opt_u32(34, v.file_type), Self::apply_fn())
                == Ok::<SpecPublishedFileDetails, WireError>(Self::spec_prefix(v, 34)),
    {
        reveal(PublishedFileDetails::spec_prefix);
        reveal(opt_u32);
        let apply = Self::apply_fn();
        let s = Self::spec_prefix(v, 33);
        lemma_fold_opt(s, 34, match v.file_type { Some(x) => Some(enc_u32(x)), None => None }, apply);
        if let Some(x) = v.file_type {
            lemma_u32_roundtrip(x);
        }
        assert(SpecPublishedFileDetails { file_type: v.file_type, ..s } == Self::spec_prefix(v, 34));
    }

    /// Reading field 35 back, after the fields before it.
    proof fn lemma_field_can_subscribe(v: SpecPublishedFileDetails)
        ensures
            fold_fields(Self::spec_prefix(v, 34), opt_bool(35, v.can_subscribe), Self::apply_fn())
                == Ok::<SpecPublishedFileDetails, WireError>(Self::spec_prefix(v, 35)),
    {
        reveal(PublishedFileDetails::spec_prefix);
        reveal(opt_bool);
        let apply = Self::apply_fn();
        let s = Self::spec_prefix(v, 34);
        lemma_fold_opt(s, 35, match v.can_subscribe { Some(x) => Some(enc_bool(x)), None => None }, apply);
        assert(SpecPublishedFileDetails { can_subscribe: v.can_subscribe, ..s } == Self::spec_prefix(v, 35));
    }

    /// Reading field 36 back, after the fields before it.
    proof fn lemma_field_subscriptions(v: SpecPublishedFileDetails)
        ensures
            fold_fields(Self::spec_prefix(v, 35), opt_u32(36, v.subscriptions), Self::apply_fn())
                == Ok::<SpecPublishedFileDetails, WireError>(Self::spec_prefix(v, 36)),
    {
        reveal(PublishedFileDetails::spec_prefix);
        reveal(opt_u32);
        let apply = Self::apply_fn();
        let s = Self::spec_prefix(v, 35);
        lemma_fold_opt(s, 36, match v.subscriptions { Some(x) => Some(enc_u32(x)), None => None }, apply);
        if let Some(x) = v.subscriptions {
            lemma_u32_roundtrip(x);
        }
        assert(SpecPublishedFileDetails { subscriptions: v.subscriptions, ..s } == Self::spec_prefix(v, 36));
    }

    /// Reading field 37 back, after the fields before it.
    proof fn lemma_field_favorited(v: SpecPublishedFileDetails)
        ensures
            fold_fields(Self::spec_prefix(v, 36), opt_u32(37, v.favorited), Self::apply_fn())
                == Ok::<SpecPublishedFileDetails, WireError>(Self::spec_prefix(v, 37)),
    {
        reveal(PublishedFileDetails::spec_prefix);
        reveal(opt_u32);
        let apply = Self::apply_fn();
        let s = Self::spec_prefix(v, 36);
        lemma_fold_opt(s, 37, match v.favorited { Some(x) => Some(enc_u32(x)), None => None }, apply);
        if let Some(x) = v.favorited {
            lemma_u32_roundtrip(x);
        }
        assert(SpecPublishedFileDetails { favorited: v.favorited, ..s } == Self::spec_prefix(v, 37));
    }

    /// Reading field 38 back, after the fields before it.
    proof fn lemma_field_followers(v: SpecPublishedFileDetails)
        ensures
            fold_fields(Self::spec_prefix(v, 37), opt_u32(38, v.followers), Self::apply_fn())
                == Ok::<SpecPublishedFileDetails, WireError>(Self::spec_prefix(v, 38)),
    {
        reveal(PublishedFileDetails::spec_prefix);
        reveal(opt_u32);
        let apply = Self::apply_fn();
        let s = Self::spec_prefix(v, 37);
        lemma_fold_opt(s, 38, match v.followers { Some(x) => Some(enc_u32(x)), None => None }, apply);
        if let Some(x) = v.followers {
            lemma_u32_roundtrip(x);
        }
        assert(SpecPublishedFileDetails { followers: v.followers, ..s } == Self::spec_prefix(v, 38));
    }

    /// Reading field 39 back, after the fields before it.
    proof fn lemma_field_lifetime_subscriptions(v: SpecPublishedFileDetails)
        ensures
            fold_fields(Self::spec_prefix(v, 38), opt_u32(39, v.lifetime_subscriptions), Self::apply_fn())
                == Ok::<SpecPublishedFileDetails, WireError>(Self::spec_prefix(v, 39)),
    {
        reveal(PublishedFileDetails::spec_prefix);
        reveal(opt_u32);
        let apply = Self::apply_fn();
        let s = Self::spec_prefix(v, 38);
        lemma_fold_opt(s, 39, match v.lifetime_subscriptions { Some(x) => Some(enc_u32(x)), None => None }, apply);
        if let Some(x) = v.lifetime_subscriptions {
            lemma_u32_roundtrip(x);
        }
        assert(SpecPublishedFileDetails { lifetime_subscriptions: v.lifetime_subscriptions, ..s } == Self::spec_prefix(v, 39));
    }

    /// Reading field 40 back, after the fields before it.
    proof fn lemma_field_lifetime_favorited(v: SpecPublishedFileDetails)
        ensures
            fold_fields(Self::spec_prefix(v, 39), opt_u32(40, v.lifetime_favorited), Self::apply_fn())
                == Ok::<SpecPublishedFileDetails, WireError>(Self::spec_prefix(v, 40)),
    {
        reveal(PublishedFileDetails::spec_prefix);
        reveal(opt_u32);
        let apply = Self::apply_fn();
        let s = Self::spec_prefix(v, 39);
        lemma_fold_opt(s, 40, match v.lifetime_favorited { Some(x) => Some(enc_u32(x)), None => None }, apply);
        if let Some(x) = v.lifetime_favorited {
            lemma_u32_roundtrip(x);
        }
        assert(SpecPublishedFileDetails { lifetime_favorited: v.lifetime_favorited, ..s } == Self::spec_prefix(v, 40));
    }

    /// Reading field 41 back, after the fields before it.
    proof fn lemma_field_lifetime_followers(v: SpecPublishedFileDetails)
        ensures
            fold_fields(Self::spec_prefix(v, 40), opt_u32(41, v.lifetime_followers), Self::apply_fn())
                == Ok::<SpecPublishedFileDetails, WireError>(Self::spec_prefix(v, 41)),
    {
        reveal(PublishedFileDetails::spec_prefix);
        reveal(opt_u32);
        let apply = Self::apply_fn();
        let s = Self::spec_prefix(v, 40);
        lemma_fold_opt(s, 41, match v.lifetime_followers { Some(x) => Some(enc_u32(x)), None => None }, apply);
        if let Some(x) = v.lifetime_followers {
            lemma_u32_roundtrip(x);
        }
        assert(SpecPublishedFileDetails { lifetime_followers: v.lifetime_followers, ..s } == Self::spec_prefix(v, 41));
    }

    /// Reading field 62 back, after the fields before it.
    proof fn lemma_field_lifetime_playtime(v: SpecPublishedFileDetails)
        ensures
            fold_fields(Self::spec_prefix(v, 41), opt_u64(62, v.lifetime_playtime), Self::apply_fn())
                == Ok::<SpecPublishedFileDetails, WireError>(Self::spec_prefix(v, 42)),
    {
        reveal(PublishedFileDetails::spec_prefix);
        reveal(opt_u64);
        let apply = Self::apply_fn();
        let s = Self::spec_prefix(v, 41);
        lemma_fold_opt(s, 62, match v.lifetime_playtime { Some(x) => Some(enc_u64(x)), None => None }, apply);
        if let Some(x) = v.lifetime_playtime {
            lemma_u64_roundtrip(x);
        }
        assert(SpecPublishedFileDetails { lifetime_playtime: v.lifetime_playtime, ..s } == Self::spec_prefix(v, 42));
    }

    /// Reading field 63 back, after the fields before it.
    proof fn lemma_field_lifetime_playtime_sessions(v: SpecPublishedFileDetails)
        ensures
            fold_fields(Self::spec_prefix(v, 42), opt_u64(63, v.lifetime_playtime_sessions), Self::apply_fn())
                == Ok::<SpecPublishedFileDetails, WireError>(Self::spec_prefix(v, 43)),
    {
        reveal(PublishedFileDetails::spec_prefix);
        reveal(opt_u64);
        let apply = Self::apply_fn();
        let s = Self::spec_prefix(v, 42);
        lemma_fold_opt(s, 63, match v.lifetime_playtime_sessions { Some(x) => Some(enc_u64(x)), None => None }, apply);
        if let Some(x) = v.lifetime_playtime_sessions {
            lemma_u64_roundtrip(x);
        }
        assert(SpecPublishedFileDetails { lifetime_playtime_sessions: v.lifetime_playtime_sessions, ..s } == Self::spec_prefix(v, 43));
    }

    /// Reading field 42 back, after the fields before it.
    proof fn lemma_field_views(v: SpecPublishedFileDetails)
        ensures
            fold_fields(Self::spec_prefix(v, 43), opt_u32(42, v.views), Self::apply_fn())
                == Ok::<SpecPublishedFileDetails, WireError>(Self::spec_prefix(v, 44)),
    {
        reveal(PublishedFileDetails::spec_prefix);
        reveal(opt_u32);
        let apply = Self::apply_fn();
        let s = Self::spec_prefix(v, 43);
        lemma_fold_opt(s, 42, match v.views { Some(x) => Some(enc_u32(x)), None => None }, apply);
        if let Some(x) = v.views {
            lemma_u32_roundtrip(x);
        }
        assert(SpecPublishedFileDetails { views: v.views, ..s } == Self::spec_prefix(v, 44));
    }

    /// Reading field 43 back, after the fields before it.
    proof fn lemma_field_image_width(v: SpecPublishedFileDetails)
        ensures
            fold_fields(Self::spec_prefix(v, 44), opt_u32(43, v.image_width), Self::apply_fn())
                == Ok::<SpecPublishedFileDetails, WireError>(Self::spec_prefix(v, 45)),
    {
        reveal(PublishedFileDetails::spec_prefix);
        reveal(opt_u32);
        let apply = Self::apply_fn();
        let s = Self::spec_prefix(v, 44);
        lemma_fold_opt(s, 43, match v.image_width { Some(x) => Some(enc_u32(x)), None => None }, apply);
        if let Some(x) = v.image_width {
            lemma_u32_roundtrip(x);
        }
        assert(SpecPublishedFileDetails { image_width: v.image_width, ..s } == Self::spec_prefix(v, 45));
    }

    /// Reading field 44 back, after the fields before it.
    proof fn lemma_field_image_height(v: SpecPublishedFileDetails)
        ensures
            fold_fields(Self::spec_prefix(v, 45), opt_u32(44, v.image_height), Self::apply_fn())
                == Ok::<SpecPublishedFileDetails, WireError>(Self::spec_prefix(v, 46)),
    {
        reveal(PublishedFileDetails::spec_prefix);
        reveal(opt_u32);
        let apply = Self::apply_fn();
        let s = Self::spec_prefix(v, 45);
        lemma_fold_opt(s, 44, match v.image_height { Some(x) => Some(enc_u32(x)), None => None }, apply);
        if let Some(x) = v.image_height {
            lemma_u32_roundtrip(x);
        }
        assert(SpecPublishedFileDetails { image_height: v.image_height, ..s } == Self::spec_prefix(v, 46));
    }

    /// Reading field 45 back, after the fields before it.
    proof fn lemma_field_image_url(v: SpecPublishedFileDetails)
        ensures
            fold_fields(Self::spec_prefix(v, 46), opt_string(45, v.image_url), Self::apply_fn())
                == Ok::<SpecPublishedFileDetails, WireError>(Self::spec_prefix(v, 47)),
    {
        reveal(PublishedFileDetails::spec_prefix);
        reveal(opt_string);
        let apply = Self::apply_fn();
        let s = Self::spec_prefix(v, 46);
        lemma_fold_opt(s, 45, match v.image_url { Some(x) => Some(enc_string(x)), None => None }, apply);
        if let Some(x) = v.image_url {
            lemma_string_roundtrip(x);
        }
        assert(SpecPublishedFileDetails { image_url: v.image_url, ..s } == Self::spec_prefix(v, 47));
    }

    /// Reading field 46 back, after the fields before it.
    proof fn lemma_field_spoiler_tag(v: SpecPublishedFileDetails)
        ensures
            fold_fields(Self::spec_prefix(v, 47), opt_bool(46, v.spoiler_tag), Self::apply_fn())
                == Ok::<SpecPublishedFileDetails, WireError>(Self::spec_prefix(v, 48)),
    {
        reveal(PublishedFileDetails::spec_prefix);
        reveal(opt_bool);
        let apply = Self::apply_fn();
        let s = Self::spec_prefix(v, 47);
        lemma_fold_opt(s, 46, match v.spoiler_tag { Some(x) => Some(enc_bool(x)), None => None }, apply);
        assert(SpecPublishedFileDetails { spoiler_tag: v.spoiler_tag, ..s } == Self::spec_prefix(v, 48));
    }

    /// Reading field 47 back, after the fields before it.
    proof fn lemma_field_shortcutid(v: SpecPublishedFileDetails)
        ensures
            fold_fields(Self::spec_prefix(v, 48), opt_u32(47, v.shortcutid), Self::apply_fn())
                == Ok::<SpecPublishedFileDetails, WireError>(Self::spec_prefix(v, 49)),
    {
        reveal(PublishedFileDetails::spec_prefix);
        reveal(opt_u32);
        let apply = Self::apply_fn();
        let s = Self::spec_prefix(v, 48);
        lemma_fold_opt(s, 47, match v.shortcutid { Some(x) => Some(enc_u32(x)), None => None }, apply);
        if let Some(x) = v.shortcutid {
            lemma_u32_roundtrip(x);
        }
        assert(SpecPublishedFileDetails { shortcutid: v.shortcutid, ..s } == Self::spec_prefix(v, 49));
    }

    /// Reading field 48 back, after the fields before it.
    proof fn lemma_field_shortcutname(v: SpecPublishedFileDetails)
        ensures
            fold_fields(Self::spec_prefix(v, 49), opt_string(48, v.shortcutname), Self::apply_fn())
                == Ok::<SpecPublishedFileDetails, WireError>(Self::spec_prefix(v, 50)),
    {
        reveal(PublishedFileDetails::spec_prefix);
        reveal(opt_string);
        let apply = Self::apply_fn();
        let s = Self::spec_prefix(v, 49);
        lemma_fold_opt(s, 48, match v.shortcutname { Some(x) => Some(enc_string(x)), None => None }, apply);
        if let Some(x) = v.shortcutname {
            lemma_string_roundtrip(x);
        }
        assert(SpecPublishedFileDetails { shortcutname: v.shortcutname, ..s } == Self::spec_prefix(v, 50));
    }

    /// Reading field 49 back, after the fields before it.
    proof fn lemma_field_num_children(v: SpecPublishedFileDetails)
        ensures
            fold_fields(Self::spec_prefix(v, 50), opt_u32(49, v.num_children), Self::apply_fn())
                == Ok::<SpecPublishedFileDetails, WireError>(Self::spec_prefix(v, 51)),
    {
        reveal(PublishedFileDetails::spec_prefix);
        reveal(opt_u32);
        let apply = Self::apply_fn();
        let s = Self::spec_prefix(v, 50);
        lemma_fold_opt(s, 49, match v.num_children { Some(x) => Some(enc_u32(x)), None => None }, apply);
        if let Some(x) = v.num_children {
            lemma_u32_roundtrip(x);
        }
        assert(SpecPublishedFileDetails { num_children: v.num_children, ..s } == Self::spec_prefix(v, 51));
    }

    /// Reading field 50 back, after the fields before it.
    proof fn lemma_field_num_reports(v: SpecPublishedFileDetails)
        ensures
            fold_fields(Self::spec_prefix(v, 51), opt_u32(50, v.num_reports), Self::apply_fn())
                == Ok::<SpecPublishedFileDetails, WireError>(Self::spec_prefix(v, 52)),
    {
        reveal(PublishedFileDetails::spec_prefix);
        reveal(opt_u32);
        let apply = Self::apply_fn();
        let s = Self::spec_prefix(v, 51);
        lemma_fold_opt(s, 50, match v.num_reports { Some(x) => Some(enc_u32(x)), None => None }, apply);
        if let Some(x) = v.num_reports {
            lemma_u32_roundtrip(x);
        }
        assert(SpecPublishedFileDetails { num_reports: v.num_reports, ..s } == Self::spec_prefix(v, 52));
    }

    /// Reading field 51 back, after the fields before it.
    proof fn lemma_field_previews(v: SpecPublishedFileDetails)
        requires
            fields_wf(rep_bytes(51, crate::steammessages_publishedfile_steamclient::published_file_details::Preview::spec_encode_all(v.previews))),
        ensures
            fold_fields(Self::spec_prefix(v, 52), rep_bytes(51, crate::steammessages_publishedfile_steamclient::published_file_details::Preview::spec_encode_all(v.previews)), Self::apply_fn())
                == Ok::<SpecPublishedFileDetails, WireError>(Self::spec_prefix(v, 53)),
    {
        reveal(PublishedFileDetails::spec_prefix);
        reveal(rep_bytes);
        reveal(fields_wf);
        let apply = Self::apply_fn();
        let s = Self::spec_prefix(v, 52);
        let l = rep_bytes(51, crate::steammessages_publishedfile_steamclient::published_file_details::Preview::spec_encode_all(v.previews));
        let xs = v.previews;
        let st = Seq::new((xs.len() + 1) as nat, |j: int| SpecPublishedFileDetails { previews: xs.take(j), ..s });
        assert forall|j: int| 0 <= j < l.len() implies #[trigger] apply(st[j], l[j]) == Ok::<SpecPublishedFileDetails, WireError>(st[j + 1]) by {
            assert(field_wf(l[j]));
            crate::steammessages_publishedfile_steamclient::published_file_details::Preview::lemma_decode_encode(xs[j]);
            assert(xs.take(j).push(xs[j]) =~= xs.take(j + 1));
        }
        lemma_fold_chain(l, st, apply);
        assert(xs.take(0) =~= Seq::<crate::steammessages_publishedfile_steamclient::published_file_details::SpecPreview>::empty());
        assert(xs.take(xs.len() as int) =~= xs);
        assert(st[0] == s);
        assert(st[xs.len() as int] == Self::spec_prefix(v, 53));
    }

    /// Reading field 52 back, after the fields before it.
    proof fn lemma_field_tags(v: SpecPublishedFileDetails)
        requires
            fields_wf(rep_bytes(52, crate::steammessages_publishedfile_steamclient::published_file_details::Tag::spec_encode_all(v.tags))),
        ensures
            fold_fields(Self::spec_prefix(v, 53), rep_bytes(52, crate::steammessages_publishedfile_steamclient::published_file_details::Tag::spec_encode_all(v.tags)), Self::apply_fn())
                == Ok::<SpecPublishedFileDetails, WireError>(Self::spec_prefix(v, 54)),
    {
        reveal(PublishedFileDetails::spec_prefix);
        reveal(rep_bytes);
        reveal(fields_wf);
        let apply = Self::apply_fn();
        let s = Self::spec_prefix(v, 53);
        let l = rep_bytes(52, crate::steammessages_publishedfile_steamclient::published_file_details::Tag::spec_encode_all(v.tags));
        let xs = v.tags;
        let st = Seq::new((xs.len() + 1) as nat, |j: int| SpecPublishedFileDetails { tags: xs.take(j), ..s });
        assert forall|j: int| 0 <= j < l.len() implies #[trigger] apply(st[j], l[j]) == Ok::<SpecPublishedFileDetails, WireError>(st[j + 1]) by {
            assert(field_wf(l[j]));
            crate::steammessages_publishedfile_steamclient::published_file_details::Tag::lemma_decode_encode(xs[j]);
            assert(xs.take(j).push(xs[j]) =~= xs.take(j + 1));
        }
        lemma_fold_chain(l, st, apply);
        assert(xs.take(0) =~= Seq::<crate::steammessages_publishedfile_steamclient::published_file_details::SpecTag>::empty());
        assert(xs.take(xs.len() as int) =~= xs);
        assert(st[0] == s);
        assert(st[xs.len() as int] == Self::spec_prefix(v, 54));
    }

    /// Reading field 53 back, after the fields before it.
    proof fn lemma_field_children(v: SpecPublishedFileDetails)
        requires
            fields_wf(rep_bytes(53, crate::steammessages_publishedfile_steamclient::published_file_details::Child::spec_encode_all(v.children))),
        ensures
            fold_fields(Self::spec_prefix(v, 54), rep_bytes(53, crate::steammessages_publishedfile_steamclient::published_file_details::Child::spec_encode_all(v.children)), Self::apply_fn())
                == Ok::<SpecPublishedFileDetails, WireError>(Self::spec_prefix(v, 55)),
    {
        reveal(PublishedFileDetails::spec_prefix);
        reveal(rep_bytes);
        reveal(fields_wf);
        let apply = Self::apply_fn();
        let s = Self::spec_prefix(v, 54);
        let l = rep_bytes(53, crate::steammessages_publishedfile_steamclient::published_file_details::Child::spec_encode_all(v.children));
        let xs = v.children;
        let st = Seq::new((xs.len() + 1) as nat, |j: int| SpecPublishedFileDetails { children: xs.take(j), ..s });
        assert forall|j: int| 0 <= j < l.len() implies #[trigger] apply(st[j], l[j]) == Ok::<SpecPublishedFileDetails, WireError>(st[j + 1]) by {
            assert(field_wf(l[j]));
            crate::steammessages_publishedfile_steamclient::published_file_details::Child::lemma_decode_encode(xs[j]);
            assert(xs.take(j).push(xs[j]) =~= xs.take(j + 1));
        }
        lemma_fold_chain(l, st, apply);
        assert(xs.take(0) =~= Seq::<crate::steammessages_publishedfile_steamclient::published_file_details::SpecChild>::empty());
        assert(xs.take(xs.len() as int) =~= xs);
        assert(st[0] == s);
        assert(st[xs.len() as int] == Self::spec_prefix(v, 55));
    }

    /// Reading field 54 back, after the fields before it.
    proof fn lemma_field_kvtags(v: SpecPublishedFileDetails)
        requires
            fields_wf(rep_bytes(54, crate::steammessages_publishedfile_steamclient::published_file_details::KVTag::spec_encode_all(v.kvtags))),
        ensures
            fold_fields(Self::spec_prefix(v, 55), rep_bytes(54, crate::steammessages_publishedfile_steamclient::published_file_details::KVTag::spec_encode_all(v.kvtags)), Self::apply_fn())
                == Ok::<SpecPublishedFileDetails, WireError>(Self::spec_prefix(v, 56)),
    {
        reveal(PublishedFileDetails::spec_prefix);
        reveal(rep_bytes);
        reveal(fields_wf);
        let apply = Self::apply_fn();
        let s = Self::spec_prefix(v, 55);
        let l = rep_bytes(54, crate::steammessages_publishedfile_steamclient::published_file_details::KVTag::spec_encode_all(v.kvtags));
        let xs = v.kvtags;
        let st = Seq::new((xs.len() + 1) as nat, |j: int| SpecPublishedFileDetails { kvtags: xs.take(j), ..s });
        assert forall|j: int| 0 <= j < l.len() implies #[trigger] apply(st[j], l[j]) == Ok::<SpecPublishedFileDetails, WireError>(st[j + 1]) by {
            assert(field_wf(l[j]));
            crate::steammessages_publishedfile_steamclient::published_file_details::KVTag::lemma_decode_encode(xs[j]);
            assert(xs.take(j).push(xs[j]) =~= xs.take(j + 1));
        }
        lemma_fold_chain(l, st, apply);
        assert(xs.take(0) =~= Seq::<crate::steammessages_publishedfile_steamclient::published_file_details::SpecKVTag>::empty());
        assert(xs.take(xs.len() as int) =~= xs);
        assert(st[0] == s);
        assert(st[xs.len() as int] == Self::spec_prefix(v, 56));
    }

    /// Reading field 55 back, after the fields before it.
    proof fn lemma_field_vote_data(v: SpecPublishedFileDetails)
        requires
            fields_wf(opt_bytes(55, crate::steammessages_publishedfile_steamclient::published_file_details::VoteData::spec_encode_opt(v.vote_data))),
        ensures
            fold_fields(Self::spec_prefix(v, 56), opt_bytes(55, crate::steammessages_publishedfile_steamclient::published_file_details::VoteData::spec_encode_opt(v.vote_data)), Self::apply_fn())
                == Ok::<SpecPublishedFileDetails, WireError>(Self::spec_prefix(v, 57)),
    {
        reveal(PublishedFileDetails::spec_prefix);
        reveal(opt_bytes);
        reveal(fields_wf);
        let apply = Self::apply_fn();
        let s = Self::spec_prefix(v, 56);
        lemma_fold_opt(s, 55, match crate::steammessages_publishedfile_steamclient::published_file_details::VoteData::spec_encode_opt(v.vote_data) { Some(x) => Some(enc_bytes(x)), None => None }, apply);
        if let Some(m) = v.vote_data {
            assert(field_wf(opt_bytes(55, crate::steammessages_publishedfile_steamclient::published_file_details::VoteData::spec_encode_opt(v.vote_data))[0]));
            crate::steammessages_publishedfile_steamclient::published_file_details::VoteData::lemma_decode_encode(m);
        }
        assert(SpecPublishedFileDetails { vote_data: v.vote_data, ..s } == Self::spec_prefix(v, 57));
    }

    /// Reading field 64 back, after the fields before it.
    proof fn lemma_field_playtime_stats(v: SpecPublishedFileDetails)
        requires
            fields_wf(opt_bytes(64, crate::steammessages_publishedfile_steamclient::published_file_details::PlaytimeStats::spec_encode_opt(v.playtime_stats))),
        ensures
            fold_fields(Self::spec_prefix(v, 57), opt_bytes(64, crate::steammessages_publishedfile_steamclient::published_file_details::PlaytimeStats::spec_encode_opt(v.playtime_stats)), Self::apply_fn())
                == Ok::<SpecPublishedFileDetails, WireError>(Self::spec_prefix(v, 58)),
    {
        reveal(PublishedFileDetails::spec_prefix);
        reveal(opt_bytes);
        reveal(fields_wf);
        let apply = Self::apply_fn();
        let s = Self::spec_prefix(v, 57);
        lemma_fold_opt(s, 64, match crate::steammessages_publishedfile_steamclient::published_file_details::PlaytimeStats::spec_encode_opt(v.playtime_stats) { Some(x) => Some(enc_bytes(x)), None => None }, apply);
        if let Some(m) = v.playtime_stats {
            assert(field_wf(opt_bytes(64, crate::steammessages_publishedfile_steamclient::published_file_details::PlaytimeStats::spec_encode_opt(v.playtime_stats))[0]));
            crate::steammessages_publishedfile_steamclient::published_file_details::PlaytimeStats::lemma_decode_encode(m);
        }
        assert(SpecPublishedFileDetails { playtime_stats: v.playtime_stats, ..s } == Self::spec_prefix(v, 58));
    }

    /// Reading field 56 back, after the fields before it.
    proof fn lemma_field_time_subscribed(v: SpecPublishedFileDetails)
        ensures
            fold_fields(Self::spec_prefix(v, 58), opt_u32(56, v.time_subscribed), Self::apply_fn())
                == Ok::<SpecPublishedFileDetails, WireError>(Self::spec_prefix(v, 59)),
    {
        reveal(PublishedFileDetails::spec_prefix);
        reveal(opt_u32);
        let apply = Self::apply_fn();
        let s = Self::spec_prefix(v, 58);
        lemma_fold_opt(s, 56, match v.time_subscribed { Some(x) => Some(enc_u32(x)), None => None }, apply);
        if let Some(x) = v.time_subscribed {
            lemma_u32_roundtrip(x);
        }
        assert(SpecPublishedFileDetails { time_subscribed: v.time_subscribed, ..s } == Self::spec_prefix(v, 59));
    }

    /// Reading field 57 back, after the fields before it.
    proof fn lemma_field_for_sale_data(v: SpecPublishedFileDetails)
        requires
            fields_wf(opt_bytes(57, crate::steammessages_publishedfile_steamclient::published_file_details::ForSaleData::spec_encode_opt(v.for_sale_data))),
        ensures
            fold_fields(Self::spec_prefix(v, 59), opt_bytes(57, crate::steammessages_publishedfile_steamclient::published_file_details::ForSaleData::spec_encode_opt(v.for_sale_data)), Self::apply_fn())
                == Ok::<SpecPublishedFileDetails, WireError>(Self::spec_prefix(v, 60)),
    {
        reveal(PublishedFileDetails::spec_prefix);
        reveal(opt_bytes);
        reveal(fields_wf);
        let apply = Self::apply_fn();
        let s = Self::spec_prefix(v, 59);
        lemma_fold_opt(s, 57, match crate::steammessages_publishedfile_steamclient::published_file_details::ForSaleData::spec_encode_opt(v.for_sale_data) { Some(x) => Some(enc_bytes(x)), None => None }, apply);
        if let Some(m) = v.for_sale_data {
            assert(field_wf(opt_bytes(57, crate::steammessages_publishedfile_steamclient::published_file_details::ForSaleData::spec_encode_opt(v.for_sale_data))[0]));
            crate::steammessages_publishedfile_steamclient::published_file_details::ForSaleData::lemma_decode_encode(m);
        }
        assert(SpecPublishedFileDetails { for_sale_data: v.for_sale_data, ..s } == Self::spec_prefix(v, 60));
    }

    /// Reading field 58 back, after the fields before it.
    proof fn lemma_field_metadata(v: SpecPublishedFileDetails)
        ensures
            fold_fields(Self::spec_prefix(v, 60), opt_string(58, v.metadata), Self::apply_fn())
                == Ok::<SpecPublishedFileDetails, WireError>(Self::spec_prefix(v, 61)),
    {
        reveal(PublishedFileDetails::spec_prefix);
        reveal(opt_string);
        let apply = Self::apply_fn();
        let s = Self::spec_prefix(v, 60);
        lemma_fold_opt(s, 58, match v.metadata { Some(x) => Some(enc_string(x)), None => None }, apply);
        if let Some(x) = v.metadata {
            lemma_string_roundtrip(x);
        }
        assert(SpecPublishedFileDetails { metadata: v.metadata, ..s } == Self::spec_prefix(v, 61));
    }

    /// Reading field 61 back, after the fields before it.
    proof fn lemma_field_language(v: SpecPublishedFileDetails)
        ensures
            fold_fields(Self::spec_prefix(v, 61), opt_i32(61, v.language), Self::apply_fn())
                == Ok::<SpecPublishedFileDetails, WireError>(Self::spec_prefix(v, 62)),
    {
        reveal(PublishedFileDetails::spec_prefix);
        reveal(opt_i32);
        let apply = Self::apply_fn();
        let s = Self::spec_prefix(v, 61);
        lemma_fold_opt(s, 61, match v.language { Some(x) => Some(enc_i32(x)), None => None }, apply);
        if let Some(x) = v.language {
            lemma_i32_roundtrip(x);
        }
        assert(SpecPublishedFileDetails { language: v.language, ..s } == Self::spec_prefix(v, 62));
    }

    /// Reading field 65 back, after the fields before it.
    proof fn lemma_field_maybe_inappropriate_sex(v: SpecPublishedFileDetails)
        ensures
            fold_fields(Self::spec_prefix(v, 62), opt_bool(65, v.maybe_inappropriate_sex), Self::apply_fn())
                == Ok::<SpecPublishedFileDetails, WireError>(Self::spec_prefix(v, 63)),
    {
        reveal(PublishedFileDetails::spec_prefix);
        reveal(opt_bool);
        let apply = Self::apply_fn();
        let s = Self::spec_prefix(v, 62);
        lemma_fold_opt(s, 65, match v.maybe_inappropriate_sex { Some(x) => Some(enc_bool(x)), None => None }, apply);
        assert(SpecPublishedFileDetails { maybe_inappropriate_sex: v.maybe_inappropriate_sex, ..s } == Self::spec_prefix(v, 63));
    }

    /// Reading field 66 back, after the fields before it.
    proof fn lemma_field_maybe_inappropriate_violence(v: SpecPublishedFileDetails)
        ensures
            fold_fields(Self::spec_prefix(v, 63), opt_bool(66, v.maybe_inappropriate_violence), Self::apply_fn())
                == Ok::<SpecPublishedFileDetails, WireError>(Self::spec_prefix(v, 64)),
    {
        reveal(PublishedFileDetails::spec_prefix);
        reveal(opt_bool);
        let apply = Self::apply_fn();
        let s = Self::spec_prefix(v, 63);
        lemma_fold_opt(s, 66, match v.maybe_inappropriate_violence { Some(x) => Some(enc_bool(x)), None => None }, apply);
        assert(SpecPublishedFileDetails { maybe_inappropriate_violence: v.maybe_inappropriate_violence, ..s } == Self::spec_prefix(v, 64));
    }

    /// Reading field 72 back, after the fields before it.
    proof fn lemma_field_content_descriptorids(v: SpecPublishedFileDetails)
        ensures
            fold_fields(Self::spec_prefix(v, 64), rep_i32(72, v.content_descriptorids), Self::apply_fn())
                == Ok::<SpecPublishedFileDetails, WireError>(Self::spec_prefix(v, 65)),
    {
        reveal(PublishedFileDetails::spec_prefix);
        reveal(rep_i32);
        let apply = Self::apply_fn();
        let s = Self::spec_prefix(v, 64);
        let l = rep_i32(72, v.content_descriptorids);
        let xs = v.content_descriptorids;
        let st = Seq::new((xs.len() + 1) as nat, |j: int| SpecPublishedFileDetails { content_descriptorids: xs.take(j), ..s });
        assert forall|j: int| 0 <= j < l.len() implies #[trigger] apply(st[j], l[j]) == Ok::<SpecPublishedFileDetails, WireError>(st[j + 1]) by {
            lemma_i32_roundtrip(xs[j]);
            assert(xs.take(j) + seq![xs[j]] =~= xs.take(j + 1));
        }
        lemma_fold_chain(l, st, apply);
        assert(xs.take(0) =~= Seq::<i32>::empty());
        assert(xs.take(xs.len() as int) =~= xs);
        assert(st[0] == s);
        assert(st[xs.len() as int] == Self::spec_prefix(v, 65));
    }

    /// Reading field 67 back, after the fields before it.
    proof fn lemma_field_revision_change_number(v: SpecPublishedFileDetails)
        ensures
            fold_fields(Self::spec_prefix(v, 65), opt_u64(67, v.revision_change_number), Self::apply_fn())
                == Ok::<SpecPublishedFileDetails, WireError>(Self::spec_prefix(v, 66)),
    {
        reveal(PublishedFileDetails::spec_prefix);
        reveal(opt_u64);
        let apply = Self::apply_fn();
        let s = Self::spec_prefix(v, 65);
        lemma_fold_opt(s, 67, match v.revision_change_number { Some(x) => Some(enc_u64(x)), None => None }, apply);
        if let Some(x) = v.revision_change_number {
            lemma_u64_roundtrip(x);
        }
        assert(SpecPublishedFileDetails { revision_change_number: v.revision_change_number, ..s } == Self::spec_prefix(v, 66));
    }

    /// Reading field 68 back, after the fields before it.
    proof fn lemma_field_revision(v: SpecPublishedFileDetails)
        ensures
            fold_fields(Self::spec_prefix(v, 66), opt_i32(68, v.revision), Self::apply_fn())
                == Ok::<SpecPublishedFileDetails, WireError>(Self::spec_prefix(v, 67)),
    {
        reveal(PublishedFileDetails::spec_prefix);
        reveal(opt_i32);
        let apply = Self::apply_fn();
        let s = Self::spec_prefix(v, 66);
        lemma_fold_opt(s, 68, match v.revision { Some(x) => Some(enc_i32(x)), None => None }, apply);
        if let Some(x) = v.revision {
            lemma_i32_roundtrip(x);
        }
        assert(SpecPublishedFileDetails { revision: v.revision, ..s } == Self::spec_prefix(v, 67));
    }

    /// Reading field 69 back, after the fields before it.
    proof fn lemma_field_available_revisions(v: SpecPublishedFileDetails)
        ensures
            fold_fields(Self::spec_prefix(v, 67), rep_i32(69, v.available_revisions), Self::apply_fn())
                == Ok::<SpecPublishedFileDetails, WireError>(Self::spec_prefix(v, 68)),
    {
        reveal(PublishedFileDetails::spec_prefix);
        reveal(rep_i32);
        let apply = Self::apply_fn();
        let s = Self::spec_prefix(v, 67);
        let l = rep_i32(69, v.available_revisions);
        let xs = v.available_revisions;
        let st = Seq::new((xs.len() + 1) as nat, |j: int| SpecPublishedFileDetails { available_revisions: xs.take(j), ..s });
        assert forall|j: int| 0 <= j < l.len() implies #[trigger] apply(st[j], l[j]) == Ok::<SpecPublishedFileDetails, WireError>(st[j + 1]) by {
            lemma_i32_roundtrip(xs[j]);
            assert(xs.take(j) + seq![xs[j]] =~= xs.take(j + 1));
        }
        lemma_fold_chain(l, st, apply);
        assert(xs.take(0) =~= Seq::<i32>::empty());
        assert(xs.take(xs.len() as int) =~= xs);
        assert(st[0] == s);
        assert(st[xs.len() as int] == Self::spec_prefix(v, 68));
    }

    /// Reading field 70 back, after the fields before it.
    proof fn lemma_field_reactions(v: SpecPublishedFileDetails)
        requires
            fields_wf(rep_bytes(70, crate::steammessages_publishedfile_steamclient::published_file_details::Reaction::spec_encode_all(v.reactions))),
        ensures
            fold_fields(Self::spec_prefix(v, 68), rep_bytes(70, crate::steammessages_publishedfile_steamclient::published_file_details::Reaction::spec_encode_all(v.reactions)), Self::apply_fn())
                == Ok::<SpecPublishedFileDetails, WireError>(Self::spec_prefix(v, 69)),
    {
        reveal(PublishedFileDetails::spec_prefix);
        reveal(rep_bytes);
        reveal(fields_wf);
        let apply = Self::apply_fn();
        let s = Self::spec_prefix(v, 68);
        let l = rep_bytes(70, crate::steammessages_publishedfile_steamclient::published_file_details::Reaction::spec_encode_all(v.reactions));
        let xs = v.reactions;
        let st = Seq::new((xs.len() + 1) as nat, |j: int| SpecPublishedFileDetails { reactions: xs.take(j), ..s });
        assert forall|j: int| 0 <= j < l.len() implies #[trigger] apply(st[j], l[j]) == Ok::<SpecPublishedFileDetails, WireError>(st[j + 1]) by {
            assert(field_wf(l[j]));
            crate::steammessages_publishedfile_steamclient::published_file_details::Reaction::lemma_decode_encode(xs[j]);
            assert(xs.take(j).push(xs[j]) =~= xs.take(j + 1));
        }
        lemma_fold_chain(l, st, apply);
        assert(xs.take(0) =~= Seq::<crate::steammessages_publishedfile_steamclient::published_file_details::SpecReaction>::empty());
        assert(xs.take(xs.len() as int) =~= xs);
        assert(st[0] == s);
        assert(st[xs.len() as int] == Self::spec_prefix(v, 69));
    }

    /// Reading field 71 back, after the fields before it.
    proof fn lemma_field_ban_text_check_result(v: SpecPublishedFileDetails)
        ensures
            fold_fields(Self::spec_prefix(v, 69), opt_i32(71, v.ban_text_check_result), Self::apply_fn())
                == Ok::<SpecPublishedFileDetails, WireError>(Self::spec_prefix(v, 70)),
    {
        reveal(PublishedFileDetails::spec_prefix);
        reveal(opt_i32);
        let apply = Self::apply_fn();
        let s = Self::spec_prefix(v, 69);
        lemma_fold_opt(s, 71, match v.ban_text_check_result { Some(x) => Some(enc_i32(x)), None => None }, apply);
        if let Some(x) = v.ban_text_check_result {
            lemma_i32_roundtrip(x);
        }
        assert(SpecPublishedFileDetails { ban_text_check_result: v.ban_text_check_result, ..s } == Self::spec_prefix(v, 70));
    }

    /// Reading field 73 back, after the fields before it.
    proof fn lemma_field_search_score(v: SpecPublishedFileDetails)
        ensures
            fold_fields(Self::spec_prefix(v, 70), opt_fixed32(73, v.search_score), Self::apply_fn())
                == Ok::<SpecPublishedFileDetails, WireError>(Self::spec_prefix(v, 71)),
    {
        reveal(PublishedFileDetails::spec_prefix);
        reveal(opt_fixed32);
        let apply = Self::apply_fn();
        let s = Self::spec_prefix(v, 70);
        lemma_fold_opt(s, 73, match v.search_score { Some(x) => Some(enc_fixed32(x)), None => None }, apply);
        assert(SpecPublishedFileDetails { search_score: v.search_score, ..s } == Self::spec_prefix(v, 71));
    }

    /// Reading field 74 back, after the fields before it.
    proof fn lemma_field_external_asset_id(v: SpecPublishedFileDetails)
        ensures
            fold_fields(Self::spec_prefix(v, 71), opt_u64(74, v.external_asset_id), Self::apply_fn())
                == Ok::<SpecPublishedFileDetails, WireError>(Self::spec_prefix(v, 72)),
    {
        reveal(PublishedFileDetails::spec_prefix);
        reveal(opt_u64);
        let apply = Self::apply_fn();
        let s = Self::spec_prefix(v, 71);
        lemma_fold_opt(s, 74, match v.external_asset_id { Some(x) => Some(enc_u64(x)), None => None }, apply);
        if let Some(x) = v.external_asset_id {
            lemma_u64_roundtrip(x);
        }
        assert(SpecPublishedFileDetails { external_asset_id: v.external_asset_id, ..s } == Self::spec_prefix(v, 72));
    }

    /// Reading field 75 back, after the fields before it.
    proof fn lemma_field_author_snapshots(v: SpecPublishedFileDetails)
        requires
            fields_wf(rep_bytes(75, crate::steammessages_publishedfile_steamclient::PublishedFileAuthorSnapshot::spec_encode_all(v.author_snapshots))),
        ensures
            fold_fields(Self::spec_prefix(v, 72), rep_bytes(75, crate::steammessages_publishedfile_steamclient::PublishedFileAuthorSnapshot::spec_encode_all(v.author_snapshots)), Self::apply_fn())
                == Ok::<SpecPublishedFileDetails, WireError>(Self::spec_prefix(v, 73)),
    {
        reveal(PublishedFileDetails::spec_prefix);
        reveal(rep_bytes);
        reveal(fields_wf);
        let apply = Self::apply_fn();
        let s = Self::spec_prefix(v, 72);
        let l = rep_bytes(75, crate::steammessages_publishedfile_steamclient::PublishedFileAuthorSnapshot::spec_encode_all(v.author_snapshots));
        let xs = v.author_snapshots;
        let st = Seq::new((xs.len() + 1) as nat, |j: int| SpecPublishedFileDetails { author_snapshots: xs.take(j), ..s });
        assert forall|j: int| 0 <= j < l.len() implies #[trigger] apply(st[j], l[j]) == Ok::<SpecPublishedFileDetails, WireError>(st[j + 1]) by {
            assert(field_wf(l[j]));
            crate::steammessages_publishedfile_steamclient::PublishedFileAuthorSnapshot::lemma_decode_encode(xs[j]);
            assert(xs.take(j).push(xs[j]) =~= xs.take(j + 1));
        }
        lemma_fold_chain(l, st, apply);
        assert(xs.take(0) =~= Seq::<crate::steammessages_publishedfile_steamclient::SpecPublishedFileAuthorSnapshot>::empty());
        assert(xs.take(xs.len() as int) =~= xs);
        assert(st[0] == s);
        assert(st[xs.len() as int] == Self::spec_prefix(v, 73));
    }

    /// Whether this message declares field number `n`.
    pub open spec fn declares(n: u32) -> bool {
        n == 1 || n == 2 || n == 3 || n == 4 || n == 5 || n == 6 || n == 7 || n == 8 || n == 9 || n == 10 || n == 11 || n == 12 || n == 13 || n == 14 || n == 15 || n == 16 || n == 17 || n == 18 || n == 19 || n == 20 || n == 21 || n == 22 || n == 23 || n == 24 || n == 25 || n == 26 || n == 27 || n == 28 || n == 29 || n == 30 || n == 31 || n == 32 || n == 33 || n == 34 || n == 35 || n == 36 || n == 37 || n == 38 || n == 39 || n == 40 || n == 41 || n == 62 || n == 63 || n == 42 || n == 43 || n == 44 || n == 45 || n == 46 || n == 47 || n == 48 || n == 49 || n == 50 || n == 51 || n == 52 || n == 53 || n == 54 || n == 55 || n == 64 || n == 56 || n == 57 || n == 58 || n == 61 || n == 65 || n == 66 || n == 72 || n == 67 || n == 68 || n == 69 || n == 70 || n == 71 || n == 73 || n == 74 || n == 75
    }

    /// A record with a number this message does not declare is passed over: well-formed
    /// bytes decode to the same message with such a record after them as without it.
    pub proof fn lemma_unknown_field(bytes: Seq<u8>, f: SpecField)
        requires
            parse_fields(bytes) is Ok,
            field_wf(f),
            !Self::declares(f.number),
        ensures
            Self::spec_decode(bytes + field_bytes(f)) == Self::spec_decode(bytes),
    {
        reveal(PublishedFileDetails::spec_decode);
        lemma_parse_fields_append(bytes, f);
        let fs = parse_fields(bytes).unwrap();
        let apply = Self::apply_fn();
        lemma_fold_concat(Self::spec_default(), fs, seq![f], apply);
        assert(fs.push(f) =~= fs + seq![f]);
        if let Ok(w) = fold_fields(Self::spec_default(), fs, apply) {
            lemma_fold_single(w, f, apply);
        }
        lemma_merge_run_fold(Self::spec_default(), bytes, apply);
        lemma_merge_run_fold(Self::spec_default(), bytes + field_bytes(f), apply);
    }

    /// Decoding the encoding of a message gives the message back.
    pub proof fn lemma_decode_encode(v: SpecPublishedFileDetails)
        requires
            Self::spec_encode(v).len() <= u64::MAX,
        ensures
            Self::spec_decode(Self::spec_encode(v)) == Ok::<SpecPublishedFileDetails, WireError>(v),
    {
        let apply = Self::apply_fn();
        let d = Self::spec_default();
        let p0 = Seq::<SpecField>::empty();
        let l1 = opt_u32(1, v.result);
        let p1 = p0 + l1;
        let l2 = opt_u64(2, v.publishedfileid);
        let p2 = p1 + l2;
        let l3 = opt_fixed64(3, v.creator);
        let p3 = p2 + l3;
        let l4 = opt_u32(4, v.creator_appid);
        let p4 = p3 + l4;
        let l5 = opt_u32(5, v.consumer_appid);
        let p5 = p4 + l5;
        let l6 = opt_u32(6, v.consumer_shortcutid);
        let p6 = p5 + l6;
        let l7 = opt_string(7, v.filename);
        let p7 = p6 + l7;
        let l8 = opt_u64(8, v.file_size);
        let p8 = p7 + l8;
        let l9 = opt_u64(9, v.preview_file_size);
        let p9 = p8 + l9;
        let l10 = opt_string(10, v.file_url);
        let p10 = p9 + l10;
        let l11 = opt_string(11, v.preview_url);
        let p11 = p10 + l11;
        let l12 = opt_string(12, v.youtubevideoid);
        let p12 = p11 + l12;
        let l13 = opt_string(13, v.url);
        let p13 = p12 + l13;
        let l14 = opt_fixed64(14, v.hcontent_file);
        let p14 = p13 + l14;
        let l15 = opt_fixed64(15, v.hcontent_preview);
        let p15 = p14 + l15;
        let l16 = opt_string(16, v.title);
        let p16 = p15 + l16;
        let l17 = opt_string(17, v.file_description);
        let p17 = p16 + l17;
        let l18 = opt_string(18, v.short_description);
        let p18 = p17 + l18;
        let l19 = opt_u32(19, v.time_created);
        let p19 = p18 + l19;
        let l20 = opt_u32(20, v.time_updated);
        let p20 = p19 + l20;
        let l21 = opt_u32(21, v.visibility);
        let p21 = p20 + l21;
        let l22 = opt_u32(22, v.flags);
        let p22 = p21 + l22;
        let l23 = opt_bool(23, v.workshop_file);
        let p23 = p22 + l23;
        let l24 = opt_bool(24, v.workshop_accepted);
        let p24 = p23 + l24;
        let l25 = opt_bool(25, v.show_subscribe_all);
        let p25 = p24 + l25;
        let l26 = opt_i32(26, v.num_comments_developer);
        let p26 = p25 + l26;
        let l27 = opt_i32(27, v.num_comments_public);
        let p27 = p26 + l27;
        let l28 = opt_bool(28, v.banned);
        let p28 = p27 + l28;
        let l29 = opt_string(29, v.ban_reason);
        let p29 = p28 + l29;
        let l30 = opt_fixed64(30, v.banner);
        let p30 = p29 + l30;
        let l31 = opt_bool(31, v.can_be_deleted);
        let p31 = p30 + l31;
        let l32 = opt_bool(32, v.incompatible);
        let p32 = p31 + l32;
        let l33 = opt_string(33, v.app_name);
        let p33 = p32 + l33;
        let l34 = opt_u32(34, v.file_type);
        let p34 = p33 + l34;
        let l35 = opt_bool(35, v.can_subscribe);
        let p35 = p34 + l35;
        let l36 = opt_u32(36, v.subscriptions);
        let p36 = p35 + l36;
        let l37 = opt_u32(37, v.favorited);
        let p37 = p36 + l37;
        let l38 = opt_u32(38, v.followers);
        let p38 = p37 + l38;
        let l39 = opt_u32(39, v.lifetime_subscriptions);
        let p39 = p38 + l39;
        let l40 = opt_u32(40, v.lifetime_favorited);
        let p40 = p39 + l40;
        let l41 = opt_u32(41, v.lifetime_followers);
        let p41 = p40 + l41;
        let l42 = opt_u64(62, v.lifetime_playtime);
        let p42 = p41 + l42;
        let l43 = opt_u64(63, v.lifetime_playtime_sessions);
        let p43 = p42 + l43;
        let l44 = opt_u32(42, v.views);
        let p44 = p43 + l44;
        let l45 = opt_u32(43, v.image_width);
        let p45 = p44 + l45;
        let l46 = opt_u32(44, v.image_height);
        let p46 = p45 + l46;
        let l47 = opt_string(45, v.image_url);
        let p47 = p46 + l47;
        let l48 = opt_bool(46, v.spoiler_tag);
        let p48 = p47 + l48;
        let l49 = opt_u32(47, v.shortcutid);
        let p49 = p48 + l49;
        let l50 = opt_string(48, v.shortcutname);
        let p50 = p49 + l50;
        let l51 = opt_u32(49, v.num_children);
        let p51 = p50 + l51;
        let l52 = opt_u32(50, v.num_reports);
        let p52 = p51 + l52;
        let l53 = rep_bytes(51, crate::steammessages_publishedfile_steamclient::published_file_details::Preview::spec_encode_all(v.previews));
        let p53 = p52 + l53;
        let l54 = rep_bytes(52, crate::steammessages_publishedfile_steamclient::published_file_details::Tag::spec_encode_all(v.tags));
        let p54 = p53 + l54;
        let l55 = rep_bytes(53, crate::steammessages_publishedfile_steamclient::published_file_details::Child::spec_encode_all(v.children));
        let p55 = p54 + l55;
        let l56 = rep_bytes(54, crate::steammessages_publishedfile_steamclient::published_file_details::KVTag::spec_encode_all(v.kvtags));
        let p56 = p55 + l56;
        let l57 = opt_bytes(55, crate::steammessages_publishedfile_steamclient::published_file_details::VoteData::spec_encode_opt(v.vote_data));
        let p57 = p56 + l57;
        let l58 = opt_bytes(64, crate::steammessages_publishedfile_steamclient::published_file_details::PlaytimeStats::spec_encode_opt(v.playtime_stats));
        let p58 = p57 + l58;
        let l59 = opt_u32(56, v.time_subscribed);
        let p59 = p58 + l59;
        let l60 = opt_bytes(57, crate::steammessages_publishedfile_steamclient::published_file_details::ForSaleData::spec_encode_opt(v.for_sale_data));
        let p60 = p59 + l60;
        let l61 = opt_string(58, v.metadata);
        let p61 = p60 + l61;
        let l62 = opt_i32(61, v.language);
        let p62 = p61 + l62;
        let l63 = opt_bool(65, v.maybe_inappropriate_sex);
        let p63 = p62 + l63;
        let l64 = opt_bool(66, v.maybe_inappropriate_violence);
        let p64 = p63 + l64;
        let l65 = rep_i32(72, v.content_descriptorids);
        let p65 = p64 + l65;
        let l66 = opt_u64(67, v.revision_change_number);
        let p66 = p65 + l66;
        let l67 = opt_i32(68, v.revision);
        let p67 = p66 + l67;
        let l68 = rep_i32(69, v.available_revisions);
        let p68 = p67 + l68;
        let l69 = rep_bytes(70, crate::steammessages_publishedfile_steamclient::published_file_details::Reaction::spec_encode_all(v.reactions));
        let p69 = p68 + l69;
        let l70 = opt_i32(71, v.ban_text_check_result);
        let p70 = p69 + l70;
        let l71 = opt_fixed32(73, v.search_score);
        let p71 = p70 + l71;
        let l72 = opt_u64(74, v.external_asset_id);
        let p72 = p71 + l72;
        let l73 = rep_bytes(75, crate::steammessages_publishedfile_steamclient::PublishedFileAuthorSnapshot::spec_encode_all(v.author_snapshots));
        let p73 = p72 + l73;
        assert(parse_fields(Self::spec_encode(v)) == Ok::<Seq<SpecField>, WireError>(p73) && fields_wf(l53) && fields_wf(l54) && fields_wf(l55) && fields_wf(l56) && fields_wf(l57) && fields_wf(l58) && fields_wf(l60) && fields_wf(l69) && fields_wf(l73)) by {
            reveal(PublishedFileDetails::spec_encode);
            assert(numbers_ok(p0) && fields_wf(p0)) by {
                reveal(numbers_ok);
                reveal(fields_wf);
            }
            lemma_opt_u32_numbered(1, v.result);
            lemma_fields_wf_concat(p0, l1);
            lemma_opt_u64_numbered(2, v.publishedfileid);
            lemma_fields_wf_concat(p1, l2);
            lemma_opt_fixed64_numbered(3, v.creator);
            lemma_fields_wf_concat(p2, l3);
            lemma_opt_u32_numbered(4, v.creator_appid);
            lemma_fields_wf_concat(p3, l4);
            lemma_opt_u32_numbered(5, v.consumer_appid);
            lemma_fields_wf_concat(p4, l5);
            lemma_opt_u32_numbered(6, v.consumer_shortcutid);
            lemma_fields_wf_concat(p5, l6);
            lemma_opt_string_numbered(7, v.filename);
            lemma_fields_wf_concat(p6, l7);
            lemma_opt_u64_numbered(8, v.file_size);
            lemma_fields_wf_concat(p7, l8);
            lemma_opt_u64_numbered(9, v.preview_file_size);
            lemma_fields_wf_concat(p8, l9);
            lemma_opt_string_numbered(10, v.file_url);
            lemma_fields_wf_concat(p9, l10);
            lemma_opt_string_numbered(11, v.preview_url);
            lemma_fields_wf_concat(p10, l11);
            lemma_opt_string_numbered(12, v.youtubevideoid);
            lemma_fields_wf_concat(p11, l12);
            lemma_opt_string_numbered(13, v.url);
            lemma_fields_wf_concat(p12, l13);
            lemma_opt_fixed64_numbered(14, v.hcontent_file);
            lemma_fields_wf_concat(p13, l14);
            lemma_opt_fixed64_numbered(15, v.hcontent_preview);
            lemma_fields_wf_concat(p14, l15);
            lemma_opt_string_numbered(16, v.title);
            lemma_fields_wf_concat(p15, l16);
            lemma_opt_string_numbered(17, v.file_description);
            lemma_fields_wf_concat(p16, l17);
            lemma_opt_string_numbered(18, v.short_description);
            lemma_fields_wf_concat(p17, l18);
            lemma_opt_u32_numbered(19, v.time_created);
            lemma_fields_wf_concat(p18, l19);
            lemma_opt_u32_numbered(20, v.time_updated);
            lemma_fields_wf_concat(p19, l20);
            lemma_opt_u32_numbered(21, v.visibility);
            lemma_fields_wf_concat(p20, l21);
            lemma_opt_u32_numbered(22, v.flags);
            lemma_fields_wf_concat(p21, l22);
            lemma_opt_bool_numbered(23, v.workshop_file);
            lemma_fields_wf_concat(p22, l23);
            lemma_opt_bool_numbered(24, v.workshop_accepted);
            lemma_fields_wf_concat(p23, l24);
            lemma_opt_bool_numbered(25, v.show_subscribe_all);
            lemma_fields_wf_concat(p24, l25);
            lemma_opt_i32_numbered(26, v.num_comments_developer);
            lemma_fields_wf_concat(p25, l26);
            lemma_opt_i32_numbered(27, v.num_comments_public);
            lemma_fields_wf_concat(p26, l27);
            lemma_opt_bool_numbered(28, v.banned);
            lemma_fields_wf_concat(p27, l28);
            lemma_opt_string_numbered(29, v.ban_reason);
            lemma_fields_wf_concat(p28, l29);
            lemma_opt_fixed64_numbered(30, v.banner);
            lemma_fields_wf_concat(p29, l30);
            lemma_opt_bool_numbered(31, v.can_be_deleted);
            lemma_fields_wf_concat(p30, l31);
            lemma_opt_bool_numbered(32, v.incompatible);
            lemma_fields_wf_concat(p31, l32);
            lemma_opt_string_numbered(33, v.app_name);
            lemma_fields_wf_concat(p32, l33);
            lemma_opt_u32_numbered(34, v.file_type);
            lemma_fields_wf_concat(p33, l34);
            lemma_opt_bool_numbered(35, v.can_subscribe);
            lemma_fields_wf_concat(p34, l35);
            lemma_opt_u32_numbered(36, v.subscriptions);
            lemma_fields_wf_concat(p35, l36);
            lemma_opt_u32_numbered(37, v.favorited);
            lemma_fields_wf_concat(p36, l37);
            lemma_opt_u32_numbered(38, v.followers);
            lemma_fields_wf_concat(p37, l38);
            lemma_opt_u32_numbered(39, v.lifetime_subscriptions);
            lemma_fields_wf_concat(p38, l39);
            lemma_opt_u32_numbered(40, v.lifetime_favorited);
            lemma_fields_wf_concat(p39, l40);
            lemma_opt_u32_numbered(41, v.lifetime_followers);
            lemma_fields_wf_concat(p40, l41);
            lemma_opt_u64_numbered(62, v.lifetime_playtime);
            lemma_fields_wf_concat(p41, l42);
            lemma_opt_u64_numbered(63, v.lifetime_playtime_sessions);
            lemma_fields_wf_concat(p42, l43);
            lemma_opt_u32_numbered(42, v.views);
            lemma_fields_wf_concat(p43, l44);
            lemma_opt_u32_numbered(43, v.image_width);
            lemma_fields_wf_concat(p44, l45);
            lemma_opt_u32_numbered(44, v.image_height);
            lemma_fields_wf_concat(p45, l46);
            lemma_opt_string_numbered(45, v.image_url);
            lemma_fields_wf_concat(p46, l47);
            lemma_opt_bool_numbered(46, v.spoiler_tag);
            lemma_fields_wf_concat(p47, l48);
            lemma_opt_u32_numbered(47, v.shortcutid);
            lemma_fields_wf_concat(p48, l49);
            lemma_opt_string_numbered(48, v.shortcutname);
            lemma_fields_wf_concat(p49, l50);
            lemma_opt_u32_numbered(49, v.num_children);
            lemma_fields_wf_concat(p50, l51);
            lemma_opt_u32_numbered(50, v.num_reports);
            lemma_fields_wf_concat(p51, l52);
            lemma_rep_bytes_numbered(51, crate::steammessages_publishedfile_steamclient::published_file_details::Preview::spec_encode_all(v.previews));
            lemma_fields_wf_concat(p52, l53);
            lemma_rep_bytes_numbered(52, crate::steammessages_publishedfile_steamclient::published_file_details::Tag::spec_encode_all(v.tags));
            lemma_fields_wf_concat(p53, l54);
            lemma_rep_bytes_numbered(53, crate::steammessages_publishedfile_steamclient::published_file_details::Child::spec_encode_all(v.children));
            lemma_fields_wf_concat(p54, l55);
            lemma_rep_bytes_numbered(54, crate::steammessages_publishedfile_steamclient::published_file_details::KVTag::spec_encode_all(v.kvtags));
            lemma_fields_wf_concat(p55, l56);
            lemma_opt_bytes_numbered(55, crate::steammessages_publishedfile_steamclient::published_file_details::VoteData::spec_encode_opt(v.vote_data));
            lemma_fields_wf_concat(p56, l57);
            lemma_opt_bytes_numbered(64, crate::steammessages_publishedfile_steamclient::published_file_details::PlaytimeStats::spec_encode_opt(v.playtime_stats));
            lemma_fields_wf_concat(p57, l58);
            lemma_opt_u32_numbered(56, v.time_subscribed);
            lemma_fields_wf_concat(p58, l59);
            lemma_opt_bytes_numbered(57, crate::steammessages_publishedfile_steamclient::published_file_details::ForSaleData::spec_encode_opt(v.for_sale_data));
            lemma_fields_wf_concat(p59, l60);
            lemma_opt_string_numbered(58, v.metadata);
            lemma_fields_wf_concat(p60, l61);
            lemma_opt_i32_numbered(61, v.language);
            lemma_fields_wf_concat(p61, l62);
            lemma_opt_bool_numbered(65, v.maybe_inappropriate_sex);
            lemma_fields_wf_concat(p62, l63);
            lemma_opt_bool_numbered(66, v.maybe_inappropriate_violence);
            lemma_fields_wf_concat(p63, l64);
            lemma_rep_i32_numbered(72, v.content_descriptorids);
            lemma_fields_wf_concat(p64, l65);
            lemma_opt_u64_numbered(67, v.revision_change_number);
            lemma_fields_wf_concat(p65, l66);
            lemma_opt_i32_numbered(68, v.revision);
            lemma_fields_wf_concat(p66, l67);
            lemma_rep_i32_numbered(69, v.available_revisions);
            lemma_fields_wf_concat(p67, l68);
            lemma_rep_bytes_numbered(70, crate::steammessages_publishedfile_steamclient::published_file_details::Reaction::spec_encode_all(v.reactions));
            lemma_fields_wf_concat(p68, l69);
            lemma_opt_i32_numbered(71, v.ban_text_check_result);
            lemma_fields_wf_concat(p69, l70);
            lemma_opt_fixed32_numbered(73, v.search_score);
            lemma_fields_wf_concat(p70, l71);
            lemma_opt_u64_numbered(74, v.external_asset_id);
            lemma_fields_wf_concat(p71, l72);
            lemma_rep_bytes_numbered(75, crate::steammessages_publishedfile_steamclient::PublishedFileAuthorSnapshot::spec_encode_all(v.author_snapshots));
            lemma_fields_wf_concat(p72, l73);
            assert(p73 == Self::spec_fields(v));
            lemma_fields_wf_from_len(p73);
            lemma_fields_roundtrip(p73);
        }
        assert(Self::spec_prefix(v, 0) == d) by {
            reveal(PublishedFileDetails::spec_prefix);
        }
        lemma_fold_empty(d, apply);
        lemma_fold_concat(d, p0, l1, apply);
        Self::lemma_field_result(v);
        lemma_fold_concat(d, p1, l2, apply);
        Self::lemma_field_publishedfileid(v);
        lemma_fold_concat(d, p2, l3, apply);
        Self::lemma_field_creator(v);
        lemma_fold_concat(d, p3, l4, apply);
        Self::lemma_field_creator_appid(v);
        lemma_fold_concat(d, p4, l5, apply);
        Self::lemma_field_consumer_appid(v);
        lemma_fold_concat(d, p5, l6, apply);
        Self::lemma_field_consumer_shortcutid(v);
        lemma_fold_concat(d, p6, l7, apply);
        Self::lemma_field_filename(v);
        lemma_fold_concat(d, p7, l8, apply);
        Self::lemma_field_file_size(v);
        lemma_fold_concat(d, p8, l9, apply);
        Self::lemma_field_preview_file_size(v);
        lemma_fold_concat(d, p9, l10, apply);
        Self::lemma_field_file_url(v);
        lemma_fold_concat(d, p10, l11, apply);
        Self::lemma_field_preview_url(v);
        lemma_fold_concat(d, p11, l12, apply);
        Self::lemma_field_youtubevideoid(v);
        lemma_fold_concat(d, p12, l13, apply);
        Self::lemma_field_url(v);
        lemma_fold_concat(d, p13, l14, apply);
        Self::lemma_field_hcontent_file(v);
        lemma_fold_concat(d, p14, l15, apply);
        Self::lemma_field_hcontent_preview(v);
        lemma_fold_concat(d, p15, l16, apply);
        Self::lemma_field_title(v);
        lemma_fold_concat(d, p16, l17, apply);
        Self::lemma_field_file_description(v);
        lemma_fold_concat(d, p17, l18, apply);
        Self::lemma_field_short_description(v);
        lemma_fold_concat(d, p18, l19, apply);
        Self::lemma_field_time_created(v);
        lemma_fold_concat(d, p19, l20, apply);
        Self::lemma_field_time_updated(v);
        lemma_fold_concat(d, p20, l21, apply);
        Self::lemma_field_visibility(v);
        lemma_fold_concat(d, p21, l22, apply);
        Self::lemma_field_flags(v);
        lemma_fold_concat(d, p22, l23, apply);
        Self::lemma_field_workshop_file(v);
        lemma_fold_concat(d, p23, l24, apply);
        Self::lemma_field_workshop_accepted(v);
        lemma_fold_concat(d, p24, l25, apply);
        Self::lemma_field_show_subscribe_all(v);
        lemma_fold_concat(d, p25, l26, apply);
        Self::lemma_field_num_comments_developer(v);
        lemma_fold_concat(d, p26, l27, apply);
        Self::lemma_field_num_comments_public(v);
        lemma_fold_concat(d, p27, l28, apply);
        Self::lemma_field_banned(v);
        lemma_fold_concat(d, p28, l29, apply);
        Self::lemma_field_ban_reason(v);
        lemma_fold_concat(d, p29, l30, apply);
        Self::lemma_field_banner(v);
        lemma_fold_concat(d, p30, l31, apply);
        Self::lemma_field_can_be_deleted(v);
        lemma_fold_concat(d, p31, l32, apply);
        Self::lemma_field_incompatible(v);
        lemma_fold_concat(d, p32, l33, apply);
        Self::lemma_field_app_name(v);
        lemma_fold_concat(d, p33, l34, apply);
        Self::lemma_field_file_type(v);
        lemma_fold_concat(d, p34, l35, apply);
        Self::lemma_field_can_subscribe(v);
        lemma_fold_concat(d, p35, l36, apply);
        Self::lemma_field_subscriptions(v);
        lemma_fold_concat(d, p36, l37, apply);
        Self::lemma_field_favorited(v);
        lemma_fold_concat(d, p37, l38, apply);
        Self::lemma_field_followers(v);
        lemma_fold_concat(d, p38, l39, apply);
        Self::lemma_field_lifetime_subscriptions(v);
        lemma_fold_concat(d, p39, l40, apply);
        Self::lemma_field_lifetime_favorited(v);
        lemma_fold_concat(d, p40, l41, apply);
        Self::lemma_field_lifetime_followers(v);
        lemma_fold_concat(d, p41, l42, apply);
        Self::lemma_field_lifetime_playtime(v);
        lemma_fold_concat(d, p42, l43, apply);
        Self::lemma_field_lifetime_playtime_sessions(v);
        lemma_fold_concat(d, p43, l44, apply);
        Self::lemma_field_views(v);
        lemma_fold_concat(d, p44, l45, apply);
        Self::lemma_field_image_width(v);
        lemma_fold_concat(d, p45, l46, apply);
        Self::lemma_field_image_height(v);
        lemma_fold_concat(d, p46, l47, apply);
        Self::lemma_field_image_url(v);
        lemma_fold_concat(d, p47, l48, apply);
        Self::lemma_field_spoiler_tag(v);
        lemma_fold_concat(d, p48, l49, apply);
        Self::lemma_field_shortcutid(v);
        lemma_fold_concat(d, p49, l50, apply);
        Self::lemma_field_shortcutname(v);
        lemma_fold_concat(d, p50, l51, apply);
        Self::lemma_field_num_children(v);
        lemma_fold_concat(d, p51, l52, apply);
        Self::lemma_field_num_reports(v);
        lemma_fold_concat(d, p52, l53, apply);
        Self::lemma_field_previews(v);
        lemma_fold_concat(d, p53, l54, apply);
        Self::lemma_field_tags(v);
        lemma_fold_concat(d, p54, l55, apply);
        Self::lemma_field_children(v);
        lemma_fold_concat(d, p55, l56, apply);
        Self::lemma_field_kvtags(v);
        lemma_fold_concat(d, p56, l57, apply);
        Self::lemma_field_vote_data(v);
        lemma_fold_concat(d, p57, l58, apply);
        Self::lemma_field_playtime_stats(v);
        lemma_fold_concat(d, p58, l59, apply);
        Self::lemma_field_time_subscribed(v);
        lemma_fold_concat(d, p59, l60, apply);
        Self::lemma_field_for_sale_data(v);
        lemma_fold_concat(d, p60, l61, apply);
        Self::lemma_field_metadata(v);
        lemma_fold_concat(d, p61, l62, apply);
        Self::lemma_field_language(v);
        lemma_fold_concat(d, p62, l63, apply);
        Self::lemma_field_maybe_inappropriate_sex(v);
        lemma_fold_concat(d, p63, l64, apply);
        Self::lemma_field_maybe_inappropriate_violence(v);
        lemma_fold_concat(d, p64, l65, apply);
        Self::lemma_field_content_descriptorids(v);
        lemma_fold_concat(d, p65, l66, apply);
        Self::lemma_field_revision_change_number(v);
        lemma_fold_concat(d, p66, l67, apply);
        Self::lemma_field_revision(v);
        lemma_fold_concat(d, p67, l68, apply);
        Self::lemma_field_available_revisions(v);
        lemma_fold_concat(d, p68, l69, apply);
        Self::lemma_field_reactions(v);
        lemma_fold_concat(d, p69, l70, apply);
        Self::lemma_field_ban_text_check_result(v);
        lemma_fold_concat(d, p70, l71, apply);
        Self::lemma_field_search_score(v);
        lemma_fold_concat(d, p71, l72, apply);
        Self::lemma_field_external_asset_id(v);
        lemma_fold_concat(d, p72, l73, apply);
        Self::lemma_field_author_snapshots(v);
        assert(Self::spec_prefix(v, 73) == v) by {
            reveal(PublishedFileDetails::spec_prefix);
        }
        lemma_merge_run_fold(d, Self::spec_encode(v), apply);
        assert(Self::spec_decode(Self::spec_encode(v)) == Ok::<SpecPublishedFileDetails, WireError>(v)) by {
            reveal(PublishedFileDetails::spec_decode);
        }
    }
}

/// `CPublishedFile_GetDetails_Response`, as Valve's schema declares it.
#[derive(Debug, Clone, PartialEq)]
pub struct CPublishedFile_GetDetails_Response {
    /// Field 1.
    pub publishedfiledetails: Vec<crate::steammessages_publishedfile_steamclient::PublishedFileDetails>,
}

/// What a `CPublishedFile_GetDetails_Response` holds, as mathematical values.
#[verifier::ext_equal]
pub struct SpecCPublishedFile_GetDetails_Response {
    pub publishedfiledetails: Seq<crate::steammessages_publishedfile_steamclient::SpecPublishedFileDetails>,
}

impl View for CPublishedFile_GetDetails_Response {
    type V = SpecCPublishedFile_GetDetails_Response;

    open spec fn view(&self) -> SpecCPublishedFile_GetDetails_Response {
        SpecCPublishedFile_GetDetails_Response {
            publishedfiledetails: crate::steammessages_publishedfile_steamclient::PublishedFileDetails::view_all(self.publishedfiledetails@),
        }
    }
}

impl Default for CPublishedFile_GetDetails_Response {
    fn default() -> (r: Self)
        ensures
            r@ == CPublishedFile_GetDetails_Response::spec_default(),
    {
        CPublishedFile_GetDetails_Response {
            publishedfiledetails: Vec::new(),
        }
    }
}

impl CPublishedFile_GetDetails_Response {
    pub open spec fn spec_default() -> SpecCPublishedFile_GetDetails_Response {
        SpecCPublishedFile_GetDetails_Response {
            publishedfiledetails: Seq::empty(),
        }
    }

    /// The records a `CPublishedFile_GetDetails_Response` is written as, in field order.
    pub open spec fn spec_fields(v: SpecCPublishedFile_GetDetails_Response) -> Seq<SpecField> {
        Seq::<SpecField>::empty()
            + rep_bytes(1, crate::steammessages_publishedfile_steamclient::PublishedFileDetails::spec_encode_all(v.publishedfiledetails))
    }

    #[verifier::opaque]
    pub open spec fn spec_encode(v: SpecCPublishedFile_GetDetails_Response) -> Seq<u8> {
        fields_bytes(Self::spec_fields(v))
    }

    /// What one record does to the message: a declared number sets or extends its
    /// field, any other number is left alone.
    pub open spec fn spec_apply(v: SpecCPublishedFile_GetDetails_Response, f: SpecField) -> Result<SpecCPublishedFile_GetDetails_Response, WireError> {
        match f.number {
            1 => match dec_bytes(f.value) {
                Ok(b) => match crate::steammessages_publishedfile_steamclient::PublishedFileDetails::spec_decode(b) {
                    Ok(m) => Ok(SpecCPublishedFile_GetDetails_Response { publishedfiledetails: v.publishedfiledetails.push(m), ..v }),
                    Err(e) => Err(e),
                },
                Err(e) => Err(e),
            },
            _ => Ok(v),
        }
    }

    pub open spec fn apply_fn() -> spec_fn(SpecCPublishedFile_GetDetails_Response, SpecField) -> Result<SpecCPublishedFile_GetDetails_Response, WireError> {
        |v: SpecCPublishedFile_GetDetails_Response, f: SpecField| Self::spec_apply(v, f)
    }

    /// The message `bytes` makes of `v`: its records applied in order, or the error
    /// that stops the reading.
    pub open spec fn spec_merge(v: SpecCPublishedFile_GetDetails_Response, bytes: Seq<u8>) -> Result<SpecCPublishedFile_GetDetails_Response, WireError> {
        let (w, stop) = merge_run(v, bytes, Self::apply_fn());
        match stop {
            None => Ok(w),
            Some(e) => Err(e),
        }
    }

    #[verifier::opaque]
    pub open spec fn spec_decode(bytes: Seq<u8>) -> Result<SpecCPublishedFile_GetDetails_Response, WireError> {
        Self::spec_merge(Self::spec_default(), bytes)
    }

    /// This message with one record applied to it, or, when the record is refused,
    /// the message unchanged and the reason.
    fn applied(self, f: &Field) -> (r: Result<Self, (Self, WireError)>)
        ensures
            match Self::spec_apply(self@, f@) {
                Ok(v) => r matches Ok(m) && m@ == v,
                Err(e) => r matches Err((m, x)) && x == e && m@ == self@,
            },
    {
        match f.number {
            1 => match read_payload(&f.value) {
                Ok(b) => match crate::steammessages_publishedfile_steamclient::PublishedFileDetails::decode(b) {
                    Ok(x) => {
                        let mut m = self;
                        let ghost before = m.publishedfiledetails@;
                        m.publishedfiledetails.push(x);
                        assert(crate::steammessages_publishedfile_steamclient::PublishedFileDetails::view_all(m.publishedfiledetails@) =~= crate::steammessages_publishedfile_steamclient::PublishedFileDetails::view_all(before).push(x@));
                        Ok(m)
                    },
                    Err(e) => Err((self, e)),
                },
                Err(e) => Err((self, e)),
            },
            _ => Ok(self),
        }
    }

    /// Reads the records `bytes` holds into this message, in order. When a record does
    /// not parse or is refused, the reading stops there: the message keeps what the
    /// records before it gave, and the error is returned.
    pub fn merge(&mut self, bytes: &[u8]) -> (r: Result<(), WireError>)
        ensures
            final(self)@ == merge_run(old(self)@, bytes@, Self::apply_fn()).0,
            r == match merge_run(old(self)@, bytes@, Self::apply_fn()).1 {
                None => Ok::<(), WireError>(()),
                Some(e) => Err::<(), WireError>(e),
            },
    {
        let ghost total = merge_run(self@, bytes@, Self::apply_fn());
        let mut cur = Self::default();
        std::mem::swap(&mut cur, self);
        let mut pos: usize = 0;
        assert(bytes@.skip(0) =~= bytes@);
        while pos < bytes.len()
            invariant
                pos <= bytes@.len(),
                total == merge_run(old(self)@, bytes@, Self::apply_fn()),
                merge_run(cur@, bytes@.skip(pos as int), Self::apply_fn()) == total,
            decreases bytes@.len() - pos,
        {
            let ghost s = bytes@.skip(pos as int);
            proof {
                lemma_merge_run_step(cur@, s, Self::apply_fn());
                lemma_parse_field_len(s);
            }
            match read_field(bytes, pos) {
                Ok((f, end)) => {
                    assert(bytes@.skip(end as int) =~= s.skip((end - pos) as int));
                    match cur.applied(&f) {
                        Ok(m) => {
                            cur = m;
                        },
                        Err((m, e)) => {
                            *self = m;
                            return Err(e);
                        },
                    }
                    pos = end;
                },
                Err(e) => {
                    *self = cur;
                    return Err(e);
                },
            }
        }
        assert(bytes@.skip(pos as int) =~= Seq::<u8>::empty());
        proof {
            lemma_merge_run_empty(cur@, Self::apply_fn());
        }
        *self = cur;
        Ok(())
    }

    /// Decodes a message from its encoding.
    pub fn decode(bytes: &[u8]) -> (r: Result<Self, WireError>)
        ensures
            match Self::spec_decode(bytes@) {
                Ok(v) => r matches Ok(m) && m@ == v,
                Err(e) => r matches Err(x) && x == e,
            },
    {
        proof {
            reveal(CPublishedFile_GetDetails_Response::spec_decode);
        }
        let mut m = Self::default();
        match m.merge(bytes) {
            Ok(()) => Ok(m),
            Err(e) => Err(e),
        }
    }

    /// The encoding of this message.
    pub fn encode_to_vec(&self) -> (r: Vec<u8>)
        ensures
            r@ == Self::spec_encode(self@),
    {
        let enc_publishedfiledetails = crate::steammessages_publishedfile_steamclient::PublishedFileDetails::encode_all(&self.publishedfiledetails);
        let ghost v = self@;
        let mut out: Vec<u8> = Vec::new();
        let ghost p0 = Seq::<SpecField>::empty();
        put_rep_bytes(&mut out, 1, &enc_publishedfiledetails);
        let ghost p1 = p0 + rep_bytes(1, crate::steammessages_publishedfile_steamclient::PublishedFileDetails::spec_encode_all(v.publishedfiledetails));
        proof {
            lemma_fields_bytes_concat(p0, rep_bytes(1, crate::steammessages_publishedfile_steamclient::PublishedFileDetails::spec_encode_all(v.publishedfiledetails)));
        }
        proof {
            reveal(CPublishedFile_GetDetails_Response::spec_encode);
        }
        assert(p1 == Self::spec_fields(v));
        out
    }

    /// Appends the encoding of this message to `out`.
    pub fn encode_raw(&self, out: &mut Vec<u8>)
        ensures
            final(out)@ == old(out)@ + Self::spec_encode(self@),
    {
        let mut b = self.encode_to_vec();
        out.append(&mut b);
    }

    /// The first `k` fields of `v`, the others as a fresh message has them.
    #[verifier::opaque]
    pub open spec fn spec_prefix(v: SpecCPublishedFile_GetDetails_Response, k: int) -> SpecCPublishedFile_GetDetails_Response {
        SpecCPublishedFile_GetDetails_Response {
            publishedfiledetails: if 1 <= k { v.publishedfiledetails } else { Seq::empty() },
        }
    }

    /// Reading field 1 back, after the fields before it.
    proof fn lemma_field_publishedfiledetails(v: SpecCPublishedFile_GetDetails_Response)
        requires
            fields_wf(rep_bytes(1, crate::steammessages_publishedfile_steamclient::PublishedFileDetails::spec_encode_all(v.publishedfiledetails))),
        ensures
            fold_fields(Self::spec_prefix(v, 0), rep_bytes(1, crate::steammessages_publishedfile_steamclient::PublishedFileDetails::spec_encode_all(v.publishedfiledetails)), Self::apply_fn())
                == Ok::<SpecCPublishedFile_GetDetails_Response, WireError>(Self::spec_prefix(v, 1)),
    {
        reveal(CPublishedFile_GetDetails_Response::spec_prefix);
        reveal(rep_bytes);
        reveal(fields_wf);
        let apply = Self::apply_fn();
        let s = Self::spec_prefix(v, 0);
        let l = rep_bytes(1, crate::steammessages_publishedfile_steamclient::PublishedFileDetails::spec_encode_all(v.publishedfiledetails));
        let xs = v.publishedfiledetails;
        let st = Seq::new((xs.len() + 1) as nat, |j: int| SpecCPublishedFile_GetDetails_Response { publishedfiledetails: xs.take(j), ..s });
        assert forall|j: int| 0 <= j < l.len() implies #[trigger] apply(st[j], l[j]) == Ok::<SpecCPublishedFile_GetDetails_Response, WireError>(st[j + 1]) by {
            assert(field_wf(l[j]));
            crate::steammessages_publishedfile_steamclient::PublishedFileDetails::lemma_decode_encode(xs[j]);
            assert(xs.take(j).push(xs[j]) =~= xs.take(j + 1));
        }
        lemma_fold_chain(l, st, apply);
        assert(xs.take(0) =~= Seq::<crate::steammessages_publishedfile_steamclient::SpecPublishedFileDetails>::empty());
        assert(xs.take(xs.len() as int) =~= xs);
        assert(st[0] == s);
        assert(st[xs.len() as int] == Self::spec_prefix(v, 1));
    }

    /// Whether this message declares field number `n`.
    pub open spec fn declares(n: u32) -> bool {
        n == 1
    }

    /// A record with a number this message does not declare is passed over: well-formed
    /// bytes decode to the same message with such a record after them as without it.
    pub proof fn lemma_unknown_field(bytes: Seq<u8>, f: SpecField)
        requires
            parse_fields(bytes) is Ok,
            field_wf(f),
            !Self::declares(f.number),
        ensures
            Self::spec_decode(bytes + field_bytes(f)) == Self::spec_decode(bytes),
    {
        reveal(CPublishedFile_GetDetails_Response::spec_decode);
        lemma_parse_fields_append(bytes, f);
        let fs = parse_fields(bytes).unwrap();
        let apply = Self::apply_fn();
        lemma_fold_concat(Self::spec_default(), fs, seq![f], apply);
        assert(fs.push(f) =~= fs + seq![f]);
        if let Ok(w) = fold_fields(Self::spec_default(), fs, apply) {
            lemma_fold_single(w, f, apply);
        }
        lemma_merge_run_fold(Self::spec_default(), bytes, apply);
        lemma_merge_run_fold(Self::spec_default(), bytes + field_bytes(f), apply);
    }

    /// Decoding the encoding of a message gives the message back.
    pub proof fn lemma_decode_encode(v: SpecCPublishedFile_GetDetails_Response)
        requires
            Self::spec_encode(v).len() <= u64::MAX,
        ensures
            Self::spec_decode(Self::spec_encode(v)) == Ok::<SpecCPublishedFile_GetDetails_Response, WireError>(v),
    {
        let apply = Self::apply_fn();
        let d = Self::spec_default();
        let p0 = Seq::<SpecField>::empty();
        let l1 = rep_bytes(1, crate::steammessages_publishedfile_steamclient::PublishedFileDetails::spec_encode_all(v.publishedfiledetails));
        let p1 = p0 + l1;
        assert(parse_fields(Self::spec_encode(v)) == Ok::<Seq<SpecField>, WireError>(p1) && fields_wf(l1)) by {
            reveal(CPublishedFile_GetDetails_Response::spec_encode);
            assert(numbers_ok(p0) && fields_wf(p0)) by {
                reveal(numbers_ok);
                reveal(fields_wf);
            }
            lemma_rep_bytes_numbered(1, crate::steammessages_publishedfile_steamclient::PublishedFileDetails::spec_encode_all(v.publishedfiledetails));
            lemma_fields_wf_concat(p0, l1);
            assert(p1 == Self::spec_fields(v));
            lemma_fields_wf_from_len(p1);
            lemma_fields_roundtrip(p1);
        }
        assert(Self::spec_prefix(v, 0) == d) by {
            reveal(CPublishedFile_GetDetails_Response::spec_prefix);
        }
        lemma_fold_empty(d, apply);
        lemma_fold_concat(d, p0, l1, apply);
        Self::lemma_field_publishedfiledetails(v);
        assert(Self::spec_prefix(v, 1) == v) by {
            reveal(CPublishedFile_GetDetails_Response::spec_prefix);
        }
        lemma_merge_run_fold(d, Self::spec_encode(v), apply);
        assert(Self::spec_decode(Self::spec_encode(v)) == Ok::<SpecCPublishedFile_GetDetails_Response, WireError>(v)) by {
            reveal(CPublishedFile_GetDetails_Response::spec_decode);
        }
    }
}

/// `CPublishedFile_GetItemInfo_Request`, as Valve's schema declares it.
#[derive(Debug, Clone, PartialEq)]
pub struct CPublishedFile_GetItemInfo_Request {
    /// Field 1.
    pub appid: Option<u32>,
    /// Field 2.
    pub last_time_updated: Option<u32>,
    /// Field 3.
    pub workshop_items: Vec<crate::steammessages_publishedfile_steamclient::c_published_file_get_item_info_request::WorkshopItem>,
    /// Field 4.
    pub desired_revision: Option<crate::steammessages_publishedfile_steamclient::EPublishedFileRevision>,
    /// Field 5.
    pub full_reconcile: Option<bool>,
}

/// What a `CPublishedFile_GetItemInfo_Request` holds, as mathematical values.
#[verifier::ext_equal]
pub struct SpecCPublishedFile_GetItemInfo_Request {
    pub appid: Option<u32>,
    pub last_time_updated: Option<u32>,
    pub workshop_items: Seq<crate::steammessages_publishedfile_steamclient::c_published_file_get_item_info_request::SpecWorkshopItem>,
    pub desired_revision: Option<i32>,
    pub full_reconcile: Option<bool>,
}

impl View for CPublishedFile_GetItemInfo_Request {
    type V = SpecCPublishedFile_GetItemInfo_Request;

    open spec fn view(&self) -> SpecCPublishedFile_GetItemInfo_Request {
        SpecCPublishedFile_GetItemInfo_Request {
            appid: self.appid,
            last_time_updated: self.last_time_updated,
            workshop_items: crate::steammessages_publishedfile_steamclient::c_published_file_get_item_info_request::WorkshopItem::view_all(self.workshop_items@),
            desired_revision: match self.desired_revision { Some(e) => Some(e.0), None => None },
            full_reconcile: self.full_reconcile,
        }
    }
}

impl Default for CPublishedFile_GetItemInfo_Request {
    fn default() -> (r: Self)
        ensures
            r@ == CPublishedFile_GetItemInfo_Request::spec_default(),
    {
        CPublishedFile_GetItemInfo_Request {
            appid: None,
            last_time_updated: None,
            workshop_items: Vec::new(),
            desired_revision: None,
            full_reconcile: None,
        }
    }
}

impl CPublishedFile_GetItemInfo_Request {
    /// Field 4, or its schema default when absent.
    pub fn desired_revision_or_default(&self) -> (r: crate::steammessages_publishedfile_steamclient::EPublishedFileRevision)
        ensures
            r == match self.desired_revision {
                Some(e) => e,
                None => crate::steammessages_publishedfile_steamclient::EPublishedFileRevision(0),
            },
    {
        match self.desired_revision {
            Some(e) => e,
            None => crate::steammessages_publishedfile_steamclient::EPublishedFileRevision::k_EPublishedFileRevision_Default(),
        }
    }

    pub open spec fn spec_default() -> SpecCPublishedFile_GetItemInfo_Request {
        SpecCPublishedFile_GetItemInfo_Request {
            appid: None,
            last_time_updated: None,
            workshop_items: Seq::empty(),
            desired_revision: None,
            full_reconcile: None,
        }
    }

    /// The records a `CPublishedFile_GetItemInfo_Request` is written as, in field order.
    pub open spec fn spec_fields(v: SpecCPublishedFile_GetItemInfo_Request) -> Seq<SpecField> {
        Seq::<SpecField>::empty()
            + opt_u32(1, v.appid)
            + opt_u32(2, v.last_time_updated)
            + rep_bytes(3, crate::steammessages_publishedfile_steamclient::c_published_file_get_item_info_request::WorkshopItem::spec_encode_all(v.workshop_items))
            + opt_i32(4, v.desired_revision)
            + opt_bool(5, v.full_reconcile)
    }

    #[verifier::opaque]
    pub open spec fn spec_encode(v: SpecCPublishedFile_GetItemInfo_Request) -> Seq<u8> {
        fields_bytes(Self::spec_fields(v))
    }

    /// What one record does to the message: a declared number sets or extends its
    /// field, any other number is left alone.
    pub open spec fn spec_apply(v: SpecCPublishedFile_GetItemInfo_Request, f: SpecField) -> Result<SpecCPublishedFile_GetItemInfo_Request, WireError> {
        match f.number {
            1 => match dec_u32(f.value) {
                Ok(x) => Ok(SpecCPublishedFile_GetItemInfo_Request { appid: Some(x), ..v }),
                Err(e) => Err(e),
            },
            2 => match dec_u32(f.value) {
                Ok(x) => Ok(SpecCPublishedFile_GetItemInfo_Request { last_time_updated: Some(x), ..v }),
                Err(e) => Err(e),
            },
            3 => match dec_bytes(f.value) {
                Ok(b) => match crate::steammessages_publishedfile_steamclient::c_published_file_get_item_info_request::WorkshopItem::spec_decode(b) {
                    Ok(m) => Ok(SpecCPublishedFile_GetItemInfo_Request { workshop_items: v.workshop_items.push(m), ..v }),
                    Err(e) => Err(e),
                },
                Err(e) => Err(e),
            },
            4 => match dec_i32(f.value) {
                Ok(x) => Ok(SpecCPublishedFile_GetItemInfo_Request { desired_revision: Some(x), ..v }),
                Err(e) => Err(e),
            },
            5 => match dec_bool(f.value) {
                Ok(x) => Ok(SpecCPublishedFile_GetItemInfo_Request { full_reconcile: Some(x), ..v }),
                Err(e) => Err(e),
            },
            _ => Ok(v),
        }
    }

    pub open spec fn apply_fn() -> spec_fn(SpecCPublishedFile_GetItemInfo_Request, SpecField) -> Result<SpecCPublishedFile_GetItemInfo_Request, WireError> {
        |v: SpecCPublishedFile_GetItemInfo_Request, f: SpecField| Self::spec_apply(v, f)
    }

    /// The message `bytes` makes of `v`: its records applied in order, or the error
    /// that stops the reading.
    pub open spec fn spec_merge(v: SpecCPublishedFile_GetItemInfo_Request, bytes: Seq<u8>) -> Result<SpecCPublishedFile_GetItemInfo_Request, WireError> {
        let (w, stop) = merge_run(v, bytes, Self::apply_fn());
        match stop {
            None => Ok(w),
            Some(e) => Err(e),
        }
    }

    #[verifier::opaque]
    pub open spec fn spec_decode(bytes: Seq<u8>) -> Result<SpecCPublishedFile_GetItemInfo_Request, WireError> {
        Self::spec_merge(Self::spec_default(), bytes)
    }

    /// This message with one record applied to it, or, when the record is refused,
    /// the message unchanged and the reason.
    fn applied(self, f: &Field) -> (r: Result<Self, (Self, WireError)>)
        ensures
            match Self::spec_apply(self@, f@) {
                Ok(v) => r matches Ok(m) && m@ == v,
                Err(e) => r matches Err((m, x)) && x == e && m@ == self@,
            },
    {
        match f.number {
            1 => match read_u32(&f.value) {
                Ok(x) => Ok(Self { appid: Some(x), ..self }),
                Err(e) => Err((self, e)),
            },
            2 => match read_u32(&f.value) {
                Ok(x) => Ok(Self { last_time_updated: Some(x), ..self }),
                Err(e) => Err((self, e)),
            },
            3 => match read_payload(&f.value) {
                Ok(b) => match crate::steammessages_publishedfile_steamclient::c_published_file_get_item_info_request::WorkshopItem::decode(b) {
                    Ok(x) => {
                        let mut m = self;
                        let ghost before = m.workshop_items@;
                        m.workshop_items.push(x);
                        assert(crate::steammessages_publishedfile_steamclient::c_published_file_get_item_info_request::WorkshopItem::view_all(m.workshop_items@) =~= crate::steammessages_publishedfile_steamclient::c_published_file_get_item_info_request::WorkshopItem::view_all(before).push(x@));
                        Ok(m)
                    },
                    Err(e) => Err((self, e)),
                },
                Err(e) => Err((self, e)),
            },
            4 => match read_i32(&f.value) {
                Ok(x) => Ok(Self { desired_revision: Some(crate::steammessages_publishedfile_steamclient::EPublishedFileRevision(x)), ..self }),
                Err(e) => Err((self, e)),
            },
            5 => match read_bool(&f.value) {
                Ok(x) => Ok(Self { full_reconcile: Some(x), ..self }),
                Err(e) => Err((self, e)),
            },
            _ => Ok(self),
        }
    }

    /// Reads the records `bytes` holds into this message, in order. When a record does
    /// not parse or is refused, the reading stops there: the message keeps what the
    /// records before it gave, and the error is returned.
    pub fn merge(&mut self, bytes: &[u8]) -> (r: Result<(), WireError>)
        ensures
            final(self)@ == merge_run(old(self)@, bytes@, Self::apply_fn()).0,
            r == match merge_run(old(self)@, bytes@, Self::apply_fn()).1 {
                None => Ok::<(), WireError>(()),
                Some(e) => Err::<(), WireError>(e),
            },
    {
        let ghost total = merge_run(self@, bytes@, Self::apply_fn());
        let mut cur = Self::default();
        std::mem::swap(&mut cur, self);
        let mut pos: usize = 0;
        assert(bytes@.skip(0) =~= bytes@);
        while pos < bytes.len()
            invariant
                pos <= bytes@.len(),
                total == merge_run(old(self)@, bytes@, Self::apply_fn()),
                merge_run(cur@, bytes@.skip(pos as int), Self::apply_fn()) == total,
            decreases bytes@.len() - pos,
        {
            let ghost s = bytes@.skip(pos as int);
            proof {
                lemma_merge_run_step(cur@, s, Self::apply_fn());
                lemma_parse_field_len(s);
            }
            match read_field(bytes, pos) {
                Ok((f, end)) => {
                    assert(bytes@.skip(end as int) =~= s.skip((end - pos) as int));
                    match cur.applied(&f) {
                        Ok(m) => {
                            cur = m;
                        },
                        Err((m, e)) => {
                            *self = m;
                            return Err(e);
                        },
                    }
                    pos = end;
                },
                Err(e) => {
                    *self = cur;
                    return Err(e);
                },
            }
        }
        assert(bytes@.skip(pos as int) =~= Seq::<u8>::empty());
        proof {
            lemma_merge_run_empty(cur@, Self::apply_fn());
        }
        *self = cur;
        Ok(())
    }

    /// Decodes a message from its encoding.
    pub fn decode(bytes: &[u8]) -> (r: Result<Self, WireError>)
        ensures
            match Self::spec_decode(bytes@) {
                Ok(v) => r matches Ok(m) && m@ == v,
                Err(e) => r matches Err(x) && x == e,
            },
    {
        proof {
            reveal(CPublishedFile_GetItemInfo_Request::spec_decode);
        }
        let mut m = Self::default();
        match m.merge(bytes) {
            Ok(()) => Ok(m),
            Err(e) => Err(e),
        }
    }

    /// The encoding of this message.
    pub fn encode_to_vec(&self) -> (r: Vec<u8>)
        ensures
            r@ == Self::spec_encode(self@),
    {
        let enc_workshop_items = crate::steammessages_publishedfile_steamclient::c_published_file_get_item_info_request::WorkshopItem::encode_all(&self.workshop_items);
        let ghost v = self@;
        let mut out: Vec<u8> = Vec::new();
        let ghost p0 = Seq::<SpecField>::empty();
        put_opt_u32(&mut out, 1, self.appid);
        let ghost p1 = p0 + opt_u32(1, v.appid);
        proof {
            lemma_fields_bytes_concat(p0, opt_u32(1, v.appid));
        }
        put_opt_u32(&mut out, 2, self.last_time_updated);
        let ghost p2 = p1 + opt_u32(2, v.last_time_updated);
        proof {
            lemma_fields_bytes_concat(p1, opt_u32(2, v.last_time_updated));
        }
        put_rep_bytes(&mut out, 3, &enc_workshop_items);
        let ghost p3 = p2 + rep_bytes(3, crate::steammessages_publishedfile_steamclient::c_published_file_get_item_info_request::WorkshopItem::spec_encode_all(v.workshop_items));
        proof {
            lemma_fields_bytes_concat(p2, rep_bytes(3, crate::steammessages_publishedfile_steamclient::c_published_file_get_item_info_request::WorkshopItem::spec_encode_all(v.workshop_items)));
        }
        put_opt_i32(&mut out, 4, match self.desired_revision { Some(e) => Some(e.0), None => None });
        let ghost p4 = p3 + opt_i32(4, v.desired_revision);
        proof {
            lemma_fields_bytes_concat(p3, opt_i32(4, v.desired_revision));
        }
        put_opt_bool(&mut out, 5, self.full_reconcile);
        let ghost p5 = p4 + opt_bool(5, v.full_reconcile);
        proof {
            lemma_fields_bytes_concat(p4, opt_bool(5, v.full_reconcile));
        }
        proof {
            reveal(CPublishedFile_GetItemInfo_Request::spec_encode);
        }
        assert(p5 == Self::spec_fields(v));
        out
    }

    /// Appends the encoding of this message to `out`.
    pub fn encode_raw(&self, out: &mut Vec<u8>)
        ensures
            final(out)@ == old(out)@ + Self::spec_encode(self@),
    {
        let mut b = self.encode_to_vec();
        out.append(&mut b);
    }

    /// The first `k` fields of `v`, the others as a fresh message has them.
    #[verifier::opaque]
    pub open spec fn spec_prefix(v: SpecCPublishedFile_GetItemInfo_Request, k: int) -> SpecCPublishedFile_GetItemInfo_Request {
        SpecCPublishedFile_GetItemInfo_Request {
            appid: if 1 <= k { v.appid } else { None },
            last_time_updated: if 2 <= k { v.last_time_updated } else { None },
            workshop_items: if 3 <= k { v.workshop_items } else { Seq::empty() },
            desired_revision: if 4 <= k { v.desired_revision } else { None },
            full_reconcile: if 5 <= k { v.full_reconcile } else { None },
        }
    }

    /// Reading field 1 back, after the fields before it.
    proof fn lemma_field_appid(v: SpecCPublishedFile_GetItemInfo_Request)
        ensures
            fold_fields(Self::spec_prefix(v, 0), opt_u32(1, v.appid), Self::apply_fn())
                == Ok::<SpecCPublishedFile_GetItemInfo_Request, WireError>(Self::spec_prefix(v, 1)),
    {
        reveal(CPublishedFile_GetItemInfo_Request::spec_prefix);
        reveal(opt_u32);
        let apply = Self::apply_fn();
        let s = Self::spec_prefix(v, 0);
        lemma_fold_opt(s, 1, match v.appid { Some(x) => Some(enc_u32(x)), None => None }, apply);
        if let Some(x) = v.appid {
            lemma_u32_roundtrip(x);
        }
        assert(SpecCPublishedFile_GetItemInfo_Request { appid: v.appid, ..s } == Self::spec_prefix(v, 1));
    }

    /// Reading field 2 back, after the fields before it.
    proof fn lemma_field_last_time_updated(v: SpecCPublishedFile_GetItemInfo_Request)
        ensures
            fold_fields(Self::spec_prefix(v, 1), opt_u32(2, v.last_time_updated), Self::apply_fn())
                == Ok::<SpecCPublishedFile_GetItemInfo_Request, WireError>(Self::spec_prefix(v, 2)),
    {
        reveal(CPublishedFile_GetItemInfo_Request::spec_prefix);
        reveal(opt_u32);
        let apply = Self::apply_fn();
        let s = Self::spec_prefix(v, 1);
        lemma_fold_opt(s, 2, match v.last_time_updated { Some(x) => Some(enc_u32(x)), None => None }, apply);
        if let Some(x) = v.last_time_updated {
            lemma_u32_roundtrip(x);
        }
        assert(SpecCPublishedFile_GetItemInfo_Request { last_time_updated: v.last_time_updated, ..s } == Self::spec_prefix(v, 2));
    }

    /// Reading field 3 back, after the fields before it.
    proof fn lemma_field_workshop_items(v: SpecCPublishedFile_GetItemInfo_Request)
        requires
            fields_wf(rep_bytes(3, crate::steammessages_publishedfile_steamclient::c_published_file_get_item_info_request::WorkshopItem::spec_encode_all(v.workshop_items))),
        ensures
            fold_fields(Self::spec_prefix(v, 2), rep_bytes(3, crate::steammessages_publishedfile_steamclient::c_published_file_get_item_info_request::WorkshopItem::spec_encode_all(v.workshop_items)), Self::apply_fn())
                == Ok::<SpecCPublishedFile_GetItemInfo_Request, WireError>(Self::spec_prefix(v, 3)),
    {
        reveal(CPublishedFile_GetItemInfo_Request::spec_prefix);
        reveal(rep_bytes);
        reveal(fields_wf);
        let apply = Self::apply_fn();
        let s = Self::spec_prefix(v, 2);
        let l = rep_bytes(3, crate::steammessages_publishedfile_steamclient::c_published_file_get_item_info_request::WorkshopItem::spec_encode_all(v.workshop_items));
        let xs = v.workshop_items;
        let st = Seq::new((xs.len() + 1) as nat, |j: int| SpecCPublishedFile_GetItemInfo_Request { workshop_items: xs.take(j), ..s });
        assert forall|j: int| 0 <= j < l.len() implies #[trigger] apply(st[j], l[j]) == Ok::<SpecCPublishedFile_GetItemInfo_Request, WireError>(st[j + 1]) by {
            assert(field_wf(l[j]));
            crate::steammessages_publishedfile_steamclient::c_published_file_get_item_info_request::WorkshopItem::lemma_decode_encode(xs[j]);
            assert(xs.take(j).push(xs[j]) =~= xs.take(j + 1));
        }
        lemma_fold_chain(l, st, apply);
        assert(xs.take(0) =~= Seq::<crate::steammessages_publishedfile_steamclient::c_published_file_get_item_info_request::SpecWorkshopItem>::empty());
        assert(xs.take(xs.len() as int) =~= xs);
        assert(st[0] == s);
        assert(st[xs.len() as int] == Self::spec_prefix(v, 3));
    }

    /// Reading field 4 back, after the fields before it.
    proof fn lemma_field_desired_revision(v: SpecCPublishedFile_GetItemInfo_Request)
        ensures
            fold_fields(Self::spec_prefix(v, 3), opt_i32(4, v.desired_revision), Self::apply_fn())
                == Ok::<SpecCPublishedFile_GetItemInfo_Request, WireError>(Self::spec_prefix(v, 4)),
    {
        reveal(CPublishedFile_GetItemInfo_Request::spec_prefix);
        reveal(opt_i32);
        let apply = Self::apply_fn();
        let s = Self::spec_prefix(v, 3);
        lemma_fold_opt(s, 4, match v.desired_revision { Some(x) => Some(enc_i32(x)), None => None }, apply);
        if let Some(x) = v.desired_revision {
            lemma_i32_roundtrip(x);
        }
        assert(SpecCPublishedFile_GetItemInfo_Request { desired_revision: v.desired_revision, ..s } == Self::spec_prefix(v, 4));
    }

    /// Reading field 5 back, after the fields before it.
    proof fn lemma_field_full_reconcile(v: SpecCPublishedFile_GetItemInfo_Request)
        ensures
            fold_fields(Self::spec_prefix(v, 4), opt_bool(5, v.full_reconcile), Self::apply_fn())
                == Ok::<SpecCPublishedFile_GetItemInfo_Request, WireError>(Self::spec_prefix(v, 5)),
    {
        reveal(CPublishedFile_GetItemInfo_Request::spec_prefix);
        reveal(opt_bool);
        let apply = Self::apply_fn();
        let s = Self::spec_prefix(v, 4);
        lemma_fold_opt(s, 5, match v.full_reconcile { Some(x) => Some(enc_bool(x)), None => None }, apply);
        assert(SpecCPublishedFile_GetItemInfo_Request { full_reconcile: v.full_reconcile, ..s } == Self::spec_prefix(v, 5));
    }

    /// Whether this message declares field number `n`.
    pub open spec fn declares(n: u32) -> bool {
        n == 1 || n == 2 || n == 3 || n == 4 || n == 5
    }

    /// A record with a number this message does not declare is passed over: well-formed
    /// bytes decode to the same message with such a record after them as without it.
    pub proof fn lemma_unknown_field(bytes: Seq<u8>, f: SpecField)
        requires
            parse_fields(bytes) is Ok,
            field_wf(f),
            !Self::declares(f.number),
        ensures
            Self::spec_decode(bytes + field_bytes(f)) == Self::spec_decode(bytes),
    {
        reveal(CPublishedFile_GetItemInfo_Request::spec_decode);
        lemma_parse_fields_append(bytes, f);
        let fs = parse_fields(bytes).unwrap();
        let apply = Self::apply_fn();
        lemma_fold_concat(Self::spec_default(), fs, seq![f], apply);
        assert(fs.push(f) =~= fs + seq![f]);
        if let Ok(w) = fold_fields(Self::spec_default(), fs, apply) {
            lemma_fold_single(w, f, apply);
        }
        lemma_merge_run_fold(Self::spec_default(), bytes, apply);
        lemma_merge_run_fold(Self::spec_default(), bytes + field_bytes(f), apply);
    }

    /// Decoding the encoding of a message gives the message back.
    pub proof fn lemma_decode_encode(v: SpecCPublishedFile_GetItemInfo_Request)
        requires
            Self::spec_encode(v).len() <= u64::MAX,
        ensures
            Self::spec_decode(Self::spec_encode(v)) == Ok::<SpecCPublishedFile_GetItemInfo_Request, WireError>(v),
    {
        let apply = Self::apply_fn();
        let d = Self::spec_default();
        let p0 = Seq::<SpecField>::empty();
        let l1 = opt_u32(1, v.appid);
        let p1 = p0 + l1;
        let l2 = opt_u32(2, v.last_time_updated);
        let p2 = p1 + l2;
        let l3 = rep_bytes(3, crate::steammessages_publishedfile_steamclient::c_published_file_get_item_info_request::WorkshopItem::spec_encode_all(v.workshop_items));
        let p3 = p2 + l3;
        let l4 = opt_i32(4, v.desired_revision);
        let p4 = p3 + l4;
        let l5 = opt_bool(5, v.full_reconcile);
        let p5 = p4 + l5;
        assert(parse_fields(Self::spec_encode(v)) == Ok::<Seq<SpecField>, WireError>(p5) && fields_wf(l3)) by {
            reveal(CPublishedFile_GetItemInfo_Request::spec_encode);
            assert(numbers_ok(p0) && fields_wf(p0)) by {
                reveal(numbers_ok);
                reveal(fields_wf);
            }
            lemma_opt_u32_numbered(1, v.appid);
            lemma_fields_wf_concat(p0, l1);
            lemma_opt_u32_numbered(2, v.last_time_updated);
            lemma_fields_wf_concat(p1, l2);
            lemma_rep_bytes_numbered(3, crate::steammessages_publishedfile_steamclient::c_published_file_get_item_info_request::WorkshopItem::spec_encode_all(v.workshop_items));
            lemma_fields_wf_concat(p2, l3);
            lemma_opt_i32_numbered(4, v.desired_revision);
            lemma_fields_wf_concat(p3, l4);
            lemma_opt_bool_numbered(5, v.full_reconcile);
            lemma_fields_wf_concat(p4, l5);
            assert(p5 == Self::spec_fields(v));
            lemma_fields_wf_from_len(p5);
            lemma_fields_roundtrip(p5);
        }
        assert(Self::spec_prefix(v, 0) == d) by {
            reveal(CPublishedFile_GetItemInfo_Request::spec_prefix);
        }
        lemma_fold_empty(d, apply);
        lemma_fold_concat(d, p0, l1, apply);
        Self::lemma_field_appid(v);
        lemma_fold_concat(d, p1, l2, apply);
        Self::lemma_field_last_time_updated(v);
        lemma_fold_concat(d, p2, l3, apply);
        Self::lemma_field_workshop_items(v);
        lemma_fold_concat(d, p3, l4, apply);
        Self::lemma_field_desired_revision(v);
        lemma_fold_concat(d, p4, l5, apply);
        Self::lemma_field_full_reconcile(v);
        assert(Self::spec_prefix(v, 5) == v) by {
            reveal(CPublishedFile_GetItemInfo_Request::spec_prefix);
        }
        lemma_merge_run_fold(d, Self::spec_encode(v), apply);
        assert(Self::spec_decode(Self::spec_encode(v)) == Ok::<SpecCPublishedFile_GetItemInfo_Request, WireError>(v)) by {
            reveal(CPublishedFile_GetItemInfo_Request::spec_decode);
        }
    }
}

/// `CPublishedFile_GetItemInfo_Response`, as Valve's schema declares it.
#[derive(Debug, Clone, PartialEq)]
pub struct CPublishedFile_GetItemInfo_Response {
    /// Field 1.
    pub update_time: Option<u32>,
    /// Field 2.
    pub workshop_items: Vec<crate::steammessages_publishedfile_steamclient::c_published_file_get_item_info_response::WorkshopItemInfo>,
    /// Field 3.
    pub private_items: Vec<u64>,
}

/// What a `CPublishedFile_GetItemInfo_Response` holds, as mathematical values.
#[verifier::ext_equal]
pub struct SpecCPublishedFile_GetItemInfo_Response {
    pub update_time: Option<u32>,
    pub workshop_items: Seq<crate::steammessages_publishedfile_steamclient::c_published_file_get_item_info_response::SpecWorkshopItemInfo>,
    pub private_items: Seq<u64>,
}

impl View for CPublishedFile_GetItemInfo_Response {
    type V = SpecCPublishedFile_GetItemInfo_Response;

    open spec fn view(&self) -> SpecCPublishedFile_GetItemInfo_Response {
        SpecCPublishedFile_GetItemInfo_Response {
            update_time: self.update_time,
            workshop_items: crate::steammessages_publishedfile_steamclient::c_published_file_get_item_info_response::WorkshopItemInfo::view_all(self.workshop_items@),
            private_items: self.private_items@,
        }
    }
}

impl Default for CPublishedFile_GetItemInfo_Response {
    fn default() -> (r: Self)
        ensures
            r@ == CPublishedFile_GetItemInfo_Response::spec_default(),
    {
        CPublishedFile_GetItemInfo_Response {
            update_time: None,
            workshop_items: Vec::new(),
            private_items: Vec::new(),
        }
    }
}

impl CPublishedFile_GetItemInfo_Response {
    pub open spec fn spec_default() -> SpecCPublishedFile_GetItemInfo_Response {
        SpecCPublishedFile_GetItemInfo_Response {
            update_time: None,
            workshop_items: Seq::empty(),
            private_items: Seq::empty(),
        }
    }

    /// The records a `CPublishedFile_GetItemInfo_Response` is written as, in field order.
    pub open spec fn spec_fields(v: SpecCPublishedFile_GetItemInfo_Response) -> Seq<SpecField> {
        Seq::<SpecField>::empty()
            + opt_u32(1, v.update_time)
            + rep_bytes(2, crate::steammessages_publishedfile_steamclient::c_published_file_get_item_info_response::WorkshopItemInfo::spec_encode_all(v.workshop_items))
            + rep_fixed64(3, v.private_items)
    }

    #[verifier::opaque]
    pub open spec fn spec_encode(v: SpecCPublishedFile_GetItemInfo_Response) -> Seq<u8> {
        fields_bytes(Self::spec_fields(v))
    }

    /// What one record does to the message: a declared number sets or extends its
    /// field, any other number is left alone.
    pub open spec fn spec_apply(v: SpecCPublishedFile_GetItemInfo_Response, f: SpecField) -> Result<SpecCPublishedFile_GetItemInfo_Response, WireError> {
        match f.number {
            1 => match dec_u32(f.value) {
                Ok(x) => Ok(SpecCPublishedFile_GetItemInfo_Response { update_time: Some(x), ..v }),
                Err(e) => Err(e),
            },
            2 => match dec_bytes(f.value) {
                Ok(b) => match crate::steammessages_publishedfile_steamclient::c_published_file_get_item_info_response::WorkshopItemInfo::spec_decode(b) {
                    Ok(m) => Ok(SpecCPublishedFile_GetItemInfo_Response { workshop_items: v.workshop_items.push(m), ..v }),
                    Err(e) => Err(e),
                },
                Err(e) => Err(e),
            },
            3 => match dec_packed_fixed64(f.value) {
                Ok(xs) => Ok(SpecCPublishedFile_GetItemInfo_Response { private_items: v.private_items + xs, ..v }),
                Err(e) => Err(e),
            },
            _ => Ok(v),
        }
    }

    pub open spec fn apply_fn() -> spec_fn(SpecCPublishedFile_GetItemInfo_Response, SpecField) -> Result<SpecCPublishedFile_GetItemInfo_Response, WireError> {
        |v: SpecCPublishedFile_GetItemInfo_Response, f: SpecField| Self::spec_apply(v, f)
    }

    /// The message `bytes` makes of `v`: its records applied in order, or the error
    /// that stops the reading.
    pub open spec fn spec_merge(v: SpecCPublishedFile_GetItemInfo_Response, bytes: Seq<u8>) -> Result<SpecCPublishedFile_GetItemInfo_Response, WireError> {
        let (w, stop) = merge_run(v, bytes, Self::apply_fn());
        match stop {
            None => Ok(w),
            Some(e) => Err(e),
        }
    }

    #[verifier::opaque]
    pub open spec fn spec_decode(bytes: Seq<u8>) -> Result<SpecCPublishedFile_GetItemInfo_Response, WireError> {
        Self::spec_merge(Self::spec_default(), bytes)
    }

    /// This message with one record applied to it, or, when the record is refused,
    /// the message unchanged and the reason.
    fn applied(self, f: &Field) -> (r: Result<Self, (Self, WireError)>)
        ensures
            match Self::spec_apply(self@, f@) {
                Ok(v) => r matches Ok(m) && m@ == v,
                Err(e) => r matches Err((m, x)) && x == e && m@ == self@,
            },
    {
        match f.number {
            1 => match read_u32(&f.value) {
                Ok(x) => Ok(Self { update_time: Some(x), ..self }),
                Err(e) => Err((self, e)),
            },
            2 => match read_payload(&f.value) {
                Ok(b) => match crate::steammessages_publishedfile_steamclient::c_published_file_get_item_info_response::WorkshopItemInfo::decode(b) {
                    Ok(x) => {
                        let mut m = self;
                        let ghost before = m.workshop_items@;
                        m.workshop_items.push(x);
                        assert(crate::steammessages_publishedfile_steamclient::c_published_file_get_item_info_response::WorkshopItemInfo::view_all(m.workshop_items@) =~= crate::steammessages_publishedfile_steamclient::c_published_file_get_item_info_response::WorkshopItemInfo::view_all(before).push(x@));
                        Ok(m)
                    },
                    Err(e) => Err((self, e)),
                },
                Err(e) => Err((self, e)),
            },
            3 => match read_packed_fixed64(&f.value) {
                Ok(xs) => {
                    let mut m = self;
                    let mut xs = xs;
                    m.private_items.append(&mut xs);
                    Ok(m)
                },
                Err(e) => Err((self, e)),
            },
            _ => Ok(self),
        }
    }

    /// Reads the records `bytes` holds into this message, in order. When a record does
    /// not parse or is refused, the reading stops there: the message keeps what the
    /// records before it gave, and the error is returned.
    pub fn merge(&mut self, bytes: &[u8]) -> (r: Result<(), WireError>)
        ensures
            final(self)@ == merge_run(old(self)@, bytes@, Self::apply_fn()).0,
            r == match merge_run(old(self)@, bytes@, Self::apply_fn()).1 {
                None => Ok::<(), WireError>(()),
                Some(e) => Err::<(), WireError>(e),
            },
    {
        let ghost total = merge_run(self@, bytes@, Self::apply_fn());
        let mut cur = Self::default();
        std::mem::swap(&mut cur, self);
        let mut pos: usize = 0;
        assert(bytes@.skip(0) =~= bytes@);
        while pos < bytes.len()
            invariant
                pos <= bytes@.len(),
                total == merge_run(old(self)@, bytes@, Self::apply_fn()),
                merge_run(cur@, bytes@.skip(pos as int), Self::apply_fn()) == total,
            decreases bytes@.len() - pos,
        {
            let ghost s = bytes@.skip(pos as int);
            proof {
                lemma_merge_run_step(cur@, s, Self::apply_fn());
                lemma_parse_field_len(s);
            }
            match read_field(bytes, pos) {
                Ok((f, end)) => {
                    assert(bytes@.skip(end as int) =~= s.skip((end - pos) as int));
                    match cur.applied(&f) {
                        Ok(m) => {
                            cur = m;
                        },
                        Err((m, e)) => {
                            *self = m;
                            return Err(e);
                        },
                    }
                    pos = end;
                },
                Err(e) => {
                    *self = cur;
                    return Err(e);
                },
            }
        }
        assert(bytes@.skip(pos as int) =~= Seq::<u8>::empty());
        proof {
            lemma_merge_run_empty(cur@, Self::apply_fn());
        }
        *self = cur;
        Ok(())
    }

    /// Decodes a message from its encoding.
    pub fn decode(bytes: &[u8]) -> (r: Result<Self, WireError>)
        ensures
            match Self::spec_decode(bytes@) {
                Ok(v) => r matches Ok(m) && m@ == v,
                Err(e) => r matches Err(x) && x == e,
            },
    {
        proof {
            reveal(CPublishedFile_GetItemInfo_Response::spec_decode);
        }
        let mut m = Self::default();
        match m.merge(bytes) {
            Ok(()) => Ok(m),
            Err(e) => Err(e),
        }
    }

    /// The encoding of this message.
    pub fn encode_to_vec(&self) -> (r: Vec<u8>)
        ensures
            r@ == Self::spec_encode(self@),
    {
        let enc_workshop_items = crate::steammessages_publishedfile_steamclient::c_published_file_get_item_info_response::WorkshopItemInfo::encode_all(&self.workshop_items);
        let ghost v = self@;
        let mut out: Vec<u8> = Vec::new();
        let ghost p0 = Seq::<SpecField>::empty();
        put_opt_u32(&mut out, 1, self.update_time);
        let ghost p1 = p0 + opt_u32(1, v.update_time);
        proof {
            lemma_fields_bytes_concat(p0, opt_u32(1, v.update_time));
        }
        put_rep_bytes(&mut out, 2, &enc_workshop_items);
        let ghost p2 = p1 + rep_bytes(2, crate::steammessages_publishedfile_steamclient::c_published_file_get_item_info_response::WorkshopItemInfo::spec_encode_all(v.workshop_items));
        proof {
            lemma_fields_bytes_concat(p1, rep_bytes(2, crate::steammessages_publishedfile_steamclient::c_published_file_get_item_info_response::WorkshopItemInfo::spec_encode_all(v.workshop_items)));
        }
        put_rep_fixed64(&mut out, 3, &self.private_items);
        let ghost p3 = p2 + rep_fixed64(3, v.private_items);
        proof {
            lemma_fields_bytes_concat(p2, rep_fixed64(3, v.private_items));
        }
        proof {
            reveal(CPublishedFile_GetItemInfo_Response::spec_encode);
        }
        assert(p3 == Self::spec_fields(v));
        out
    }

    /// Appends the encoding of this message to `out`.
    pub fn encode_raw(&self, out: &mut Vec<u8>)
        ensures
            final(out)@ == old(out)@ + Self::spec_encode(self@),
    {
        let mut b = self.encode_to_vec();
        out.append(&mut b);
    }

    /// The first `k` fields of `v`, the others as a fresh message has them.
    #[verifier::opaque]
    pub open spec fn spec_prefix(v: SpecCPublishedFile_GetItemInfo_Response, k: int) -> SpecCPublishedFile_GetItemInfo_Response {
        SpecCPublishedFile_GetItemInfo_Response {
            update_time: if 1 <= k { v.update_time } else { None },
            workshop_items: if 2 <= k { v.workshop_items } else { Seq::empty() },
            private_items: if 3 <= k { v.private_items } else { Seq::empty() },
        }
    }

    /// Reading field 1 back, after the fields before it.
    proof fn lemma_field_update_time(v: SpecCPublishedFile_GetItemInfo_Response)
        ensures
            fold_fields(Self::spec_prefix(v, 0), opt_u32(1, v.update_time), Self::apply_fn())
                == Ok::<SpecCPublishedFile_GetItemInfo_Response, WireError>(Self::spec_prefix(v, 1)),
    {
        reveal(CPublishedFile_GetItemInfo_Response::spec_prefix);
        reveal(opt_u32);
        let apply = Self::apply_fn();
        let s = Self::spec_prefix(v, 0);
        lemma_fold_opt(s, 1, match v.update_time { Some(x) => Some(enc_u32(x)), None => None }, apply);
        if let Some(x) = v.update_time {
            lemma_u32_roundtrip(x);
        }
        assert(SpecCPublishedFile_GetItemInfo_Response { update_time: v.update_time, ..s } == Self::spec_prefix(v, 1));
    }

    /// Reading field 2 back, after the fields before it.
    proof fn lemma_field_workshop_items(v: SpecCPublishedFile_GetItemInfo_Response)
        requires
            fields_wf(rep_bytes(2, crate::steammessages_publishedfile_steamclient::c_published_file_get_item_info_response::WorkshopItemInfo::spec_encode_all(v.workshop_items))),
        ensures
            fold_fields(Self::spec_prefix(v, 1), rep_bytes(2, crate::steammessages_publishedfile_steamclient::c_published_file_get_item_info_response::WorkshopItemInfo::spec_encode_all(v.workshop_items)), Self::apply_fn())
                == Ok::<SpecCPublishedFile_GetItemInfo_Response, WireError>(Self::spec_prefix(v, 2)),
    {
        reveal(CPublishedFile_GetItemInfo_Response::spec_prefix);
        reveal(rep_bytes);
        reveal(fields_wf);
        let apply = Self::apply_fn();
        let s = Self::spec_prefix(v, 1);
        let l = rep_bytes(2, crate::steammessages_publishedfile_steamclient::c_published_file_get_item_info_response::WorkshopItemInfo::spec_encode_all(v.workshop_items));
        let xs = v.workshop_items;
        let st = Seq::new((xs.len() + 1) as nat, |j: int| SpecCPublishedFile_GetItemInfo_Response { workshop_items: xs.take(j), ..s });
        assert forall|j: int| 0 <= j < l.len() implies #[trigger] apply(st[j], l[j]) == Ok::<SpecCPublishedFile_GetItemInfo_Response, WireError>(st[j + 1]) by {
            assert(field_wf(l[j]));
            crate::steammessages_publishedfile_steamclient::c_published_file_get_item_info_response::WorkshopItemInfo::lemma_decode_encode(xs[j]);
            assert(xs.take(j).push(xs[j]) =~= xs.take(j + 1));
        }
        lemma_fold_chain(l, st, apply);
        assert(xs.take(0) =~= Seq::<crate::steammessages_publishedfile_steamclient::c_published_file_get_item_info_response::SpecWorkshopItemInfo>::empty());
        assert(xs.take(xs.len() as int) =~= xs);
        assert(st[0] == s);
        assert(st[xs.len() as int] == Self::spec_prefix(v, 2));
    }

    /// Reading field 3 back, after the fields before it.
    proof fn lemma_field_private_items(v: SpecCPublishedFile_GetItemInfo_Response)
        ensures
            fold_fields(Self::spec_prefix(v, 2), rep_fixed64(3, v.private_items), Self::apply_fn())
                == Ok::<SpecCPublishedFile_GetItemInfo_Response, WireError>(Self::spec_prefix(v, 3)),
    {
        reveal(CPublishedFile_GetItemInfo_Response::spec_prefix);
        reveal(rep_fixed64);
        let apply = Self::apply_fn();
        let s = Self::spec_prefix(v, 2);
        let l = rep_fixed64(3, v.private_items);
        let xs = v.private_items;
        let st = Seq::new((xs.len() + 1) as nat, |j: int| SpecCPublishedFile_GetItemInfo_Response { private_items: xs.take(j), ..s });
        assert forall|j: int| 0 <= j < l.len() implies #[trigger] apply(st[j], l[j]) == Ok::<SpecCPublishedFile_GetItemInfo_Response, WireError>(st[j + 1]) by {
            lemma_u64_roundtrip(xs[j]);
            assert(xs.take(j) + seq![xs[j]] =~= xs.take(j + 1));
        }
        lemma_fold_chain(l, st, apply);
        assert(xs.take(0) =~= Seq::<u64>::empty());
        assert(xs.take(xs.len() as int) =~= xs);
        assert(st[0] == s);
        assert(st[xs.len() as int] == Self::spec_prefix(v, 3));
    }

    /// Whether this message declares field number `n`.
    pub open spec fn declares(n: u32) -> bool {
        n == 1 || n == 2 || n == 3
    }

    /// A record with a number this message does not declare is passed over: well-formed
    /// bytes decode to the same message with such a record after them as without it.
    pub proof fn lemma_unknown_field(bytes: Seq<u8>, f: SpecField)
        requires
            parse_fields(bytes) is Ok,
            field_wf(f),
            !Self::declares(f.number),
        ensures
            Self::spec_decode(bytes + field_bytes(f)) == Self::spec_decode(bytes),
    {
        reveal(CPublishedFile_GetItemInfo_Response::spec_decode);
        lemma_parse_fields_append(bytes, f);
        let fs = parse_fields(bytes).unwrap();
        let apply = Self::apply_fn();
        lemma_fold_concat(Self::spec_default(), fs, seq![f], apply);
        assert(fs.push(f) =~= fs + seq![f]);
        if let Ok(w) = fold_fields(Self::spec_default(), fs, apply) {
            lemma_fold_single(w, f, apply);
        }
        lemma_merge_run_fold(Self::spec_default(), bytes, apply);
        lemma_merge_run_fold(Self::spec_default(), bytes + field_bytes(f), apply);
    }

    /// Decoding the encoding of a message gives the message back.
    pub proof fn lemma_decode_encode(v: SpecCPublishedFile_GetItemInfo_Response)
        requires
            Self::spec_encode(v).len() <= u64::MAX,
        ensures
            Self::spec_decode(Self::spec_encode(v)) == Ok::<SpecCPublishedFile_GetItemInfo_Response, WireError>(v),
    {
        let apply = Self::apply_fn();
        let d = Self::spec_default();
        let p0 = Seq::<SpecField>::empty();
        let l1 = opt_u32(1, v.update_time);
        let p1 = p0 + l1;
        let l2 = rep_bytes(2, crate::steammessages_publishedfile_steamclient::c_published_file_get_item_info_response::WorkshopItemInfo::spec_encode_all(v.workshop_items));
        let p2 = p1 + l2;
        let l3 = rep_fixed64(3, v.private_items);
        let p3 = p2 + l3;
        assert(parse_fields(Self::spec_encode(v)) == Ok::<Seq<SpecField>, WireError>(p3) && fields_wf(l2)) by {
            reveal(CPublishedFile_GetItemInfo_Response::spec_encode);
            assert(numbers_ok(p0) && fields_wf(p0)) by {
                reveal(numbers_ok);
                reveal(fields_wf);
            }
            lemma_opt_u32_numbered(1, v.update_time);
            lemma_fields_wf_concat(p0, l1);
            lemma_rep_bytes_numbered(2, crate::steammessages_publishedfile_steamclient::c_published_file_get_item_info_response::WorkshopItemInfo::spec_encode_all(v.workshop_items));
            lemma_fields_wf_concat(p1, l2);
            lemma_rep_fixed64_numbered(3, v.private_items);
            lemma_fields_wf_concat(p2, l3);
            assert(p3 == Self::spec_fields(v));
            lemma_fields_wf_from_len(p3);
            lemma_fields_roundtrip(p3);
        }
        assert(Self::spec_prefix(v, 0) == d) by {
            reveal(CPublishedFile_GetItemInfo_Response::spec_prefix);
        }
        lemma_fold_empty(d, apply);
        lemma_fold_concat(d, p0, l1, apply);
        Self::lemma_field_update_time(v);
        lemma_fold_concat(d, p1, l2, apply);
        Self::lemma_field_workshop_items(v);
        lemma_fold_concat(d, p2, l3, apply);
        Self::lemma_field_private_items(v);
        assert(Self::spec_prefix(v, 3) == v) by {
            reveal(CPublishedFile_GetItemInfo_Response::spec_prefix);
        }
        lemma_merge_run_fold(d, Self::spec_encode(v), apply);
        assert(Self::spec_decode(Self::spec_encode(v)) == Ok::<SpecCPublishedFile_GetItemInfo_Response, WireError>(v)) by {
            reveal(CPublishedFile_GetItemInfo_Response::spec_decode);
        }
    }
}

/// `CPublishedFile_GetUserFiles_Request`, as Valve's schema declares it.
#[derive(Debug, Clone, PartialEq)]
pub struct CPublishedFile_GetUserFiles_Request {
    /// Field 1.
    pub steamid: Option<u64>,
    /// Field 2.
    pub appid: Option<u32>,
    /// Field 3.
    pub shortcutid: Option<u32>,
    /// Field 4.
    pub page: Option<u32>,
    /// Field 5.
    pub numperpage: Option<u32>,
    /// Field 6.
    pub type_: Option<String>,
    /// Field 7.
    pub sortmethod: Option<String>,
    /// Field 9.
    pub privacy: Option<u32>,
    /// Field 10.
    pub requiredtags: Vec<String>,
    /// Field 11.
    pub excludedtags: Vec<String>,
    /// Field 30.
    pub required_kv_tags: Vec<crate::steammessages_publishedfile_steamclient::c_published_file_get_user_files_request::KVTag>,
    /// Field 14.
    pub filetype: Option<u32>,
    /// Field 15.
    pub creator_appid: Option<u32>,
    /// Field 16.
    pub match_cloud_filename: Option<String>,
    /// Field 27.
    pub cache_max_age_seconds: Option<u32>,
    /// Field 29.
    pub language: Option<i32>,
    /// Field 34.
    pub taggroups: Vec<crate::steammessages_publishedfile_steamclient::c_published_file_get_user_files_request::TagGroup>,
    /// Field 39.
    pub date_range_created: Option<crate::steammessages_publishedfile_steamclient::c_published_file_get_user_files_request::DateRange>,
    /// Field 40.
    pub date_range_updated: Option<crate::steammessages_publishedfile_steamclient::c_published_file_get_user_files_request::DateRange>,
    /// Field 37.
    pub excluded_content_descriptors: Vec<crate::enums_productinfo::EContentDescriptorID>,
    /// Field 38.
    pub admin_query: Option<bool>,
    /// Field 17.
    pub totalonly: Option<bool>,
    /// Field 18.
    pub ids_only: Option<bool>,
    /// Field 19.
    pub return_vote_data: Option<bool>,
    /// Field 20.
    pub return_tags: Option<bool>,
    /// Field 21.
    pub return_kv_tags: Option<bool>,
    /// Field 22.
    pub return_previews: Option<bool>,
    /// Field 23.
    pub return_children: Option<bool>,
    /// Field 24.
    pub return_short_description: Option<bool>,
    /// Field 26.
    pub return_for_sale_data: Option<bool>,
    /// Field 28.
    pub return_metadata: Option<bool>,
    /// Field 31.
    pub return_playtime_stats: Option<u32>,
    /// Field 32.
    pub strip_description_bbcode: Option<bool>,
    /// Field 35.
    pub return_reactions: Option<bool>,
    /// Field 25.
    pub startindex_override: Option<u32>,
    /// Field 33.
    pub desired_revision: Option<crate::steammessages_publishedfile_steamclient::EPublishedFileRevision>,
    /// Field 36.
    pub return_apps: Option<bool>,
}

/// What a `CPublishedFile_GetUserFiles_Request` holds, as mathematical values.
#[verifier::ext_equal]
pub struct SpecCPublishedFile_GetUserFiles_Request {
    pub steamid: Option<u64>,
    pub appid: Option<u32>,
    pub shortcutid: Option<u32>,
    pub page: Option<u32>,
    pub numperpage: Option<u32>,
    pub type_: Option<Seq<char>>,
    pub sortmethod: Option<Seq<char>>,
    pub privacy: Option<u32>,
    pub requiredtags: Seq<Seq<char>>,
    pub excludedtags: Seq<Seq<char>>,
    pub required_kv_tags: Seq<crate::steammessages_publishedfile_steamclient::c_published_file_get_user_files_request::SpecKVTag>,
    pub filetype: Option<u32>,
    pub creator_appid: Option<u32>,
    pub match_cloud_filename: Option<Seq<char>>,
    pub cache_max_age_seconds: Option<u32>,
    pub language: Option<i32>,
    pub taggroups: Seq<crate::steammessages_publishedfile_steamclient::c_published_file_get_user_files_request::SpecTagGroup>,
    pub date_range_created: Option<crate::steammessages_publishedfile_steamclient::c_published_file_get_user_files_request::SpecDateRange>,
    pub date_range_updated: Option<crate::steammessages_publishedfile_steamclient::c_published_file_get_user_files_request::SpecDateRange>,
    pub excluded_content_descriptors: Seq<i32>,
    pub admin_query: Option<bool>,
    pub totalonly: Option<bool>,
    pub ids_only: Option<bool>,
    pub return_vote_data: Option<bool>,
    pub return_tags: Option<bool>,
    pub return_kv_tags: Option<bool>,
    pub return_previews: Option<bool>,
    pub return_children: Option<bool>,
    pub return_short_description: Option<bool>,
    pub return_for_sale_data: Option<bool>,
    pub return_metadata: Option<bool>,
    pub return_playtime_stats: Option<u32>,
    pub strip_description_bbcode: Option<bool>,
    pub return_reactions: Option<bool>,
    pub startindex_override: Option<u32>,
    pub desired_revision: Option<i32>,
    pub return_apps: Option<bool>,
}

impl View for CPublishedFile_GetUserFiles_Request {
    type V = SpecCPublishedFile_GetUserFiles_Request;

    open spec fn view(&self) -> SpecCPublishedFile_GetUserFiles_Request {
        SpecCPublishedFile_GetUserFiles_Request {
            steamid: self.steamid,
            appid: self.appid,
            shortcutid: self.shortcutid,
            page: self.page,
            numperpage: self.numperpage,
            type_: opt_string_view(self.type_),
            sortmethod: opt_string_view(self.sortmethod),
            privacy: self.privacy,
            requiredtags: strings_view(self.requiredtags@),
            excludedtags: strings_view(self.excludedtags@),
            required_kv_tags: crate::steammessages_publishedfile_steamclient::c_published_file_get_user_files_request::KVTag::view_all(self.required_kv_tags@),
            filetype: self.filetype,
            creator_appid: self.creator_appid,
            match_cloud_filename: opt_string_view(self.match_cloud_filename),
            cache_max_age_seconds: self.cache_max_age_seconds,
            language: self.language,
            taggroups: crate::steammessages_publishedfile_steamclient::c_published_file_get_user_files_request::TagGroup::view_all(self.taggroups@),
            date_range_created: crate::steammessages_publishedfile_steamclient::c_published_file_get_user_files_request::DateRange::view_opt(self.date_range_created),
            date_range_updated: crate::steammessages_publishedfile_steamclient::c_published_file_get_user_files_request::DateRange::view_opt(self.date_range_updated),
            excluded_content_descriptors: crate::enums_productinfo::EContentDescriptorID::values(self.excluded_content_descriptors@),
            admin_query: self.admin_query,
            totalonly: self.totalonly,
            ids_only: self.ids_only,
            return_vote_data: self.return_vote_data,
            return_tags: self.return_tags,
            return_kv_tags: self.return_kv_tags,
            return_previews: self.return_previews,
            return_children: self.return_children,
            return_short_description: self.return_short_description,
            return_for_sale_data: self.return_for_sale_data,
            return_metadata: self.return_metadata,
            return_playtime_stats: self.return_playtime_stats,
            strip_description_bbcode: self.strip_description_bbcode,
            return_reactions: self.return_reactions,
            startindex_override: self.startindex_override,
            desired_revision: match self.desired_revision { Some(e) => Some(e.0), None => None },
            return_apps: self.return_apps,
        }
    }
}

impl Default for CPublishedFile_GetUserFiles_Request {
    fn default() -> (r: Self)
        ensures
            r@ == CPublishedFile_GetUserFiles_Request::spec_default(),
    {
        CPublishedFile_GetUserFiles_Request {
            steamid: None,
            appid: None,
            shortcutid: None,
            page: None,
            numperpage: None,
            type_: None,
            sortmethod: None,
            privacy: None,
            requiredtags: Vec::new(),
            excludedtags: Vec::new(),
            required_kv_tags: Vec::new(),
            filetype: None,
            creator_appid: None,
            match_cloud_filename: None,
            cache_max_age_seconds: None,
            language: None,
            taggroups: Vec::new(),
            date_range_created: None,
            date_range_updated: None,
            excluded_content_descriptors: Vec::new(),
            admin_query: None,
            totalonly: None,
            ids_only: None,
            return_vote_data: None,
            return_tags: None,
            return_kv_tags: None,
            return_previews: None,
            return_children: None,
            return_short_description: None,
            return_for_sale_data: None,
            return_metadata: None,
            return_playtime_stats: None,
            strip_description_bbcode: None,
            return_reactions: None,
            startindex_override: None,
            desired_revision: None,
            return_apps: None,
        }
    }
}

impl CPublishedFile_GetUserFiles_Request {
    /// Field 4, or its schema default when absent.
    pub fn page_or_default(&self) -> (r: u32)
        ensures
            r == match self.page {
                Some(x) => x,
                None => 1u32,
            },
    {
        self.page.unwrap_or(1u32)
    }

    /// Field 5, or its schema default when absent.
    pub fn numperpage_or_default(&self) -> (r: u32)
        ensures
            r == match self.numperpage {
                Some(x) => x,
                None => 1u32,
            },
    {
        self.numperpage.unwrap_or(1u32)
    }

    /// Field 6, or its schema default when absent.
    pub fn type_or_default(&self) -> (r: &str)
        ensures
            r@ == match self.type_ {
                Some(s) => s@,
                None => "myfiles"@,
            },
    {
        match &self.type_ {
            Some(s) => s.as_str(),
            None => "myfiles",
        }
    }

    /// Field 7, or its schema default when absent.
    pub fn sortmethod_or_default(&self) -> (r: &str)
        ensures
            r@ == match self.sortmethod {
                Some(s) => s@,
                None => "lastupdated"@,
            },
    {
        match &self.sortmethod {
            Some(s) => s.as_str(),
            None => "lastupdated",
        }
    }

    /// Field 27, or its schema default when absent.
    pub fn cache_max_age_seconds_or_default(&self) -> (r: u32)
        ensures
            r == match self.cache_max_age_seconds {
                Some(x) => x,
                None => 0u32,
            },
    {
        self.cache_max_age_seconds.unwrap_or(0u32)
    }

    /// Field 29, or its schema default when absent.
    pub fn language_or_default(&self) -> (r: i32)
        ensures
            r == match self.language {
                Some(x) => x,
                None => 0i32,
            },
    {
        self.language.unwrap_or(0i32)
    }

    /// Field 19, or its schema default when absent.
    pub fn return_vote_data_or_default(&self) -> (r: bool)
        ensures
            r == match self.return_vote_data {
                Some(x) => x,
                None => true,
            },
    {
        self.return_vote_data.unwrap_or(true)
    }

    /// Field 21, or its schema default when absent.
    pub fn return_kv_tags_or_default(&self) -> (r: bool)
        ensures
            r == match self.return_kv_tags {
                Some(x) => x,
                None => true,
            },
    {
        self.return_kv_tags.unwrap_or(true)
    }

    /// Field 24, or its schema default when absent.
    pub fn return_short_description_or_default(&self) -> (r: bool)
        ensures
            r == match self.return_short_description {
                Some(x) => x,
                None => true,
            },
    {
        self.return_short_description.unwrap_or(true)
    }

    /// Field 28, or its schema default when absent.
    pub fn return_metadata_or_default(&self) -> (r: bool)
        ensures
            r == match self.return_metadata {
                Some(x) => x,
                None => false,
            },
    {
        self.return_metadata.unwrap_or(false)
    }

    /// Field 35, or its schema default when absent.
    pub fn return_reactions_or_default(&self) -> (r: bool)
        ensures
            r == match self.return_reactions {
                Some(x) => x,
                None => false,
            },
    {
        self.return_reactions.unwrap_or(false)
    }

    /// Field 33, or its schema default when absent.
    pub fn desired_revision_or_default(&self) -> (r: crate::steammessages_publishedfile_steamclient::EPublishedFileRevision)
        ensures
            r == match self.desired_revision {
                Some(e) => e,
                None => crate::steammessages_publishedfile_steamclient::EPublishedFileRevision(0),
            },
    {
        match self.desired_revision {
            Some(e) => e,
            None => crate::steammessages_publishedfile_steamclient::EPublishedFileRevision::k_EPublishedFileRevision_Default(),
        }
    }

    pub open spec fn spec_default() -> SpecCPublishedFile_GetUserFiles_Request {
        SpecCPublishedFile_GetUserFiles_Request {
            steamid: None,
            appid: None,
            shortcutid: None,
            page: None,
            numperpage: None,
            type_: None,
            sortmethod: None,
            privacy: None,
            requiredtags: Seq::empty(),
            excludedtags: Seq::empty(),
            required_kv_tags: Seq::empty(),
            filetype: None,
            creator_appid: None,
            match_cloud_filename: None,
            cache_max_age_seconds: None,
            language: None,
            taggroups: Seq::empty(),
            date_range_created: None,
            date_range_updated: None,
            excluded_content_descriptors: Seq::empty(),
            admin_query: None,
            totalonly: None,
            ids_only: None,
            return_vote_data: None,
            return_tags: None,
            return_kv_tags: None,
            return_previews: None,
            return_children: None,
            return_short_description: None,
            return_for_sale_data: None,
            return_metadata: None,
            return_playtime_stats: None,
            strip_description_bbcode: None,
            return_reactions: None,
            startindex_override: None,
            desired_revision: None,
            return_apps: None,
        }
    }

    /// The records a `CPublishedFile_GetUserFiles_Request` is written as, in field order.
    pub open spec fn spec_fields(v: SpecCPublishedFile_GetUserFiles_Request) -> Seq<SpecField> {
        Seq::<SpecField>::empty()
            + opt_fixed64(1, v.steamid)
            + opt_u32(2, v.appid)
            + opt_u32(3, v.shortcutid)
            + opt_u32(4, v.page)
            + opt_u32(5, v.numperpage)
            + opt_string(6, v.type_)
            + opt_string(7, v.sortmethod)
            + opt_u32(9, v.privacy)
            + rep_string(10, v.requiredtags)
            + rep_string(11, v.excludedtags)
            + rep_bytes(30, crate::steammessages_publishedfile_steamclient::c_published_file_get_user_files_request::KVTag::spec_encode_all(v.required_kv_tags))
            + opt_u32(14, v.filetype)
            + opt_u32(15, v.creator_appid)
            + opt_string(16, v.match_cloud_filename)
            + opt_u32(27, v.cache_max_age_seconds)
            + opt_i32(29, v.language)
            + rep_bytes(34, crate::steammessages_publishedfile_steamclient::c_published_file_get_user_files_request::TagGroup::spec_encode_all(v.taggroups))
            + opt_bytes(39, crate::steammessages_publishedfile_steamclient::c_published_file_get_user_files_request::DateRange::spec_encode_opt(v.date_range_created))
            + opt_bytes(40, crate::steammessages_publishedfile_steamclient::c_published_file_get_user_files_request::DateRange::spec_encode_opt(v.date_range_updated))
            + rep_i32(37, v.excluded_content_descriptors)
            + opt_bool(38, v.admin_query)
            + opt_bool(17, v.totalonly)
            + opt_bool(18, v.ids_only)
            + opt_bool(19, v.return_vote_data)
            + opt_bool(20, v.return_tags)
            + opt_bool(21, v.return_kv_tags)
            + opt_bool(22, v.return_previews)
            + opt_bool(23, v.return_children)
            + opt_bool(24, v.return_short_description)
            + opt_bool(26, v.return_for_sale_data)
            + opt_bool(28, v.return_metadata)
            + opt_u32(31, v.return_playtime_stats)
            + opt_bool(32, v.strip_description_bbcode)
            + opt_bool(35, v.return_reactions)
            + opt_u32(25, v.startindex_override)
            + opt_i32(33, v.desired_revision)
            + opt_bool(36, v.return_apps)
    }

    #[verifier::opaque]
    pub open spec fn spec_encode(v: SpecCPublishedFile_GetUserFiles_Request) -> Seq<u8> {
        fields_bytes(Self::spec_fields(v))
    }

    /// What one record does to the message: a declared number sets or extends its
    /// field, any other number is left alone.
    pub open spec fn spec_apply(v: SpecCPublishedFile_GetUserFiles_Request, f: SpecField) -> Result<SpecCPublishedFile_GetUserFiles_Request, WireError> {
        match f.number {
            1 => match dec_fixed64(f.value) {
                Ok(x) => Ok(SpecCPublishedFile_GetUserFiles_Request { steamid: Some(x), ..v }),
                Err(e) => Err(e),
            },
            2 => match dec_u32(f.value) {
                Ok(x) => Ok(SpecCPublishedFile_GetUserFiles_Request { appid: Some(x), ..v }),
                Err(e) => Err(e),
            },
            3 => match dec_u32(f.value) {
                Ok(x) => Ok(SpecCPublishedFile_GetUserFiles_Request { shortcutid: Some(x), ..v }),
                Err(e) => Err(e),
            },
            4 => match dec_u32(f.value) {
                Ok(x) => Ok(SpecCPublishedFile_GetUserFiles_Request { page: Some(x), ..v }),
                Err(e) => Err(e),
            },
            5 => match dec_u32(f.value) {
                Ok(x) => Ok(SpecCPublishedFile_GetUserFiles_Request { numperpage: Some(x), ..v }),
                Err(e) => Err(e),
            },
            6 => match dec_string(f.value) {
                Ok(x) => Ok(SpecCPublishedFile_GetUserFiles_Request { type_: Some(x), ..v }),
                Err(e) => Err(e),
            },
            7 => match dec_string(f.value) {
                Ok(x) => Ok(SpecCPublishedFile_GetUserFiles_Request { sortmethod: Some(x), ..v }),
                Err(e) => Err(e),
            },
            9 => match dec_u32(f.value) {
                Ok(x) => Ok(SpecCPublishedFile_GetUserFiles_Request { privacy: Some(x), ..v }),
                Err(e) => Err(e),
            },
            10 => match dec_string(f.value) {
                Ok(x) => Ok(SpecCPublishedFile_GetUserFiles_Request { requiredtags: v.requiredtags.push(x), ..v }),
                Err(e) => Err(e),
            },
            11 => match dec_string(f.value) {
                Ok(x) => Ok(SpecCPublishedFile_GetUserFiles_Request { excludedtags: v.excludedtags.push(x), ..v }),
                Err(e) => Err(e),
            },
            30 => match dec_bytes(f.value) {
                Ok(b) => match crate::steammessages_publishedfile_steamclient::c_published_file_get_user_files_request::KVTag::spec_decode(b) {
                    Ok(m) => Ok(SpecCPublishedFile_GetUserFiles_Request { required_kv_tags: v.required_kv_tags.push(m), ..v }),
                    Err(e) => Err(e),
                },
                Err(e) => Err(e),
            },
            14 => match dec_u32(f.value) {
                Ok(x) => Ok(SpecCPublishedFile_GetUserFiles_Request { filetype: Some(x), ..v }),
                Err(e) => Err(e),
            },
            15 => match dec_u32(f.value) {
                Ok(x) => Ok(SpecCPublishedFile_GetUserFiles_Request { creator_appid: Some(x), ..v }),
                Err(e) => Err(e),
            },
            16 => match dec_string(f.value) {
                Ok(x) => Ok(SpecCPublishedFile_GetUserFiles_Request { match_cloud_filename: Some(x), ..v }),
                Err(e) => Err(e),
            },
            27 => match dec_u32(f.value) {
                Ok(x) => Ok(SpecCPublishedFile_GetUserFiles_Request { cache_max_age_seconds: Some(x), ..v }),
                Err(e) => Err(e),
            },
            29 => match dec_i32(f.value) {
                Ok(x) => Ok(SpecCPublishedFile_GetUserFiles_Request { language: Some(x), ..v }),
                Err(e) => Err(e),
            },
            34 => match dec_bytes(f.value) {
                Ok(b) => match crate::steammessages_publishedfile_steamclient::c_published_file_get_user_files_request::TagGroup::spec_decode(b) {
                    Ok(m) => Ok(SpecCPublishedFile_GetUserFiles_Request { taggroups: v.taggroups.push(m), ..v }),
                    Err(e) => Err(e),
                },
                Err(e) => Err(e),
            },
            39 => match dec_bytes(f.value) {
                Ok(b) => match crate::steammessages_publishedfile_steamclient::c_published_file_get_user_files_request::DateRange::spec_decode(b) {
                    Ok(m) => Ok(SpecCPublishedFile_GetUserFiles_Request { date_range_created: Some(m), ..v }),
                    Err(e) => Err(e),
                },
                Err(e) => Err(e),
            },
            40 => match dec_bytes(f.value) {
                Ok(b) => match crate::steammessages_publishedfile_steamclient::c_published_file_get_user_files_request::DateRange::spec_decode(b) {
                    Ok(m) => Ok(SpecCPublishedFile_GetUserFiles_Request { date_range_updated: Some(m), ..v }),
                    Err(e) => Err(e),
                },
                Err(e) => Err(e),
            },
            37 => match dec_packed_i32(f.value) {
                Ok(xs) => Ok(SpecCPublishedFile_GetUserFiles_Request { excluded_content_descriptors: v.excluded_content_descriptors + xs, ..v }),
                Err(e) => Err(e),
            },
            38 => match dec_bool(f.value) {
                Ok(x) => Ok(SpecCPublishedFile_GetUserFiles_Request { admin_query: Some(x), ..v }),
                Err(e) => Err(e),
            },
            17 => match dec_bool(f.value) {
                Ok(x) => Ok(SpecCPublishedFile_GetUserFiles_Request { totalonly: Some(x), ..v }),
                Err(e) => Err(e),
            },
            18 => match dec_bool(f.value) {
                Ok(x) => Ok(SpecCPublishedFile_GetUserFiles_Request { ids_only: Some(x), ..v }),
                Err(e) => Err(e),
            },
            19 => match dec_bool(f.value) {
                Ok(x) => Ok(SpecCPublishedFile_GetUserFiles_Request { return_vote_data: Some(x), ..v }),
                Err(e) => Err(e),
            },
            20 => match dec_bool(f.value) {
                Ok(x) => Ok(SpecCPublishedFile_GetUserFiles_Request { return_tags: Some(x), ..v }),
                Err(e) => Err(e),
            },
            21 => match dec_bool(f.value) {
                Ok(x) => Ok(SpecCPublishedFile_GetUserFiles_Request { return_kv_tags: Some(x), ..v }),
                Err(e) => Err(e),
            },
            22 => match dec_bool(f.value) {
                Ok(x) => Ok(SpecCPublishedFile_GetUserFiles_Request { return_previews: Some(x), ..v }),
                Err(e) => Err(e),
            },
            23 => match dec_bool(f.value) {
                Ok(x) => Ok(SpecCPublishedFile_GetUserFiles_Request { return_children: Some(x), ..v }),
                Err(e) => Err(e),
            },
            24 => match dec_bool(f.value) {
                Ok(x) => Ok(SpecCPublishedFile_GetUserFiles_Request { return_short_description: Some(x), ..v }),
                Err(e) => Err(e),
            },
            26 => match dec_bool(f.value) {
                Ok(x) => Ok(SpecCPublishedFile_GetUserFiles_Request { return_for_sale_data: Some(x), ..v }),
                Err(e) => Err(e),
            },
            28 => match dec_bool(f.value) {
                Ok(x) => Ok(SpecCPublishedFile_GetUserFiles_Request { return_metadata: Some(x), ..v }),
                Err(e) => Err(e),
            },
            31 => match dec_u32(f.value) {
                Ok(x) => Ok(SpecCPublishedFile_GetUserFiles_Request { return_playtime_stats: Some(x), ..v }),
                Err(e) => Err(e),
            },
            32 => match dec_bool(f.value) {
                Ok(x) => Ok(SpecCPublishedFile_GetUserFiles_Request { strip_description_bbcode: Some(x), ..v }),
                Err(e) => Err(e),
            },
            35 => match dec_bool(f.value) {
                Ok(x) => Ok(SpecCPublishedFile_GetUserFiles_Request { return_reactions: Some(x), ..v }),
                Err(e) => Err(e),
            },
            25 => match dec_u32(f.value) {
                Ok(x) => Ok(SpecCPublishedFile_GetUserFiles_Request { startindex_override: Some(x), ..v }),
                Err(e) => Err(e),
            },
            33 => match dec_i32(f.value) {
                Ok(x) => Ok(SpecCPublishedFile_GetUserFiles_Request { desired_revision: Some(x), ..v }),
                Err(e) => Err(e),
            },
            36 => match dec_bool(f.value) {
                Ok(x) => Ok(SpecCPublishedFile_GetUserFiles_Request { return_apps: Some(x), ..v }),
                Err(e) => Err(e),
            },
            _ => Ok(v),
        }
    }

    pub open spec fn apply_fn() -> spec_fn(SpecCPublishedFile_GetUserFiles_Request, SpecField) -> Result<SpecCPublishedFile_GetUserFiles_Request, WireError> {
        |v: SpecCPublishedFile_GetUserFiles_Request, f: SpecField| Self::spec_apply(v, f)
    }

    /// The message `bytes` makes of `v`: its records applied in order, or the error
    /// that stops the reading.
    pub open spec fn spec_merge(v: SpecCPublishedFile_GetUserFiles_Request, bytes: Seq<u8>) -> Result<SpecCPublishedFile_GetUserFiles_Request, WireError> {
        let (w, stop) = merge_run(v, bytes, Self::apply_fn());
        match stop {
            None => Ok(w),
            Some(e) => Err(e),
        }
    }

    #[verifier::opaque]
    pub open spec fn spec_decode(bytes: Seq<u8>) -> Result<SpecCPublishedFile_GetUserFiles_Request, WireError> {
        Self::spec_merge(Self::spec_default(), bytes)
    }

    /// This message with one record applied to it, or, when the record is refused,
    /// the message unchanged and the reason.
    fn applied(self, f: &Field) -> (r: Result<Self, (Self, WireError)>)
        ensures
            match Self::spec_apply(self@, f@) {
                Ok(v) => r matches Ok(m) && m@ == v,
                Err(e) => r matches Err((m, x)) && x == e && m@ == self@,
            },
    {
        if f.number <= 4 {
            self.applied_0(f)
        } else if f.number <= 9 {
            self.applied_1(f)
        } else if f.number <= 15 {
            self.applied_2(f)
        } else if f.number <= 19 {
            self.applied_3(f)
        } else if f.number <= 23 {
            self.applied_4(f)
        } else if f.number <= 27 {
            self.applied_5(f)
        } else if f.number <= 31 {
            self.applied_6(f)
        } else if f.number <= 35 {
            self.applied_7(f)
        } else if f.number <= 39 {
            self.applied_8(f)
        } else {
            self.applied_9(f)
        }
    }

    /// `applied`, for the records numbered up to 4.
    #[verifier::rlimit(40)]
    fn applied_0(self, f: &Field) -> (r: Result<Self, (Self, WireError)>)
        requires
            f.number <= 4,
        ensures
            match Self::spec_apply(self@, f@) {
                Ok(v) => r matches Ok(m) && m@ == v,
                Err(e) => r matches Err((m, x)) && x == e && m@ == self@,
            },
    {
        match f.number {
            1 => match read_fixed64(&f.value) {
                Ok(x) => Ok(Self { steamid: Some(x), ..self }),
                Err(e) => Err((self, e)),
            },
            2 => match read_u32(&f.value) {
                Ok(x) => Ok(Self { appid: Some(x), ..self }),
                Err(e) => Err((self, e)),
            },
            3 => match read_u32(&f.value) {
                Ok(x) => Ok(Self { shortcutid: Some(x), ..self }),
                Err(e) => Err((self, e)),
            },
            4 => match read_u32(&f.value) {
                Ok(x) => Ok(Self { page: Some(x), ..self }),
                Err(e) => Err((self, e)),
            },
            _ => Ok(self),
        }
    }

    /// `applied`, for the records numbered from 5 to 9.
    #[verifier::rlimit(40)]
    fn applied_1(self, f: &Field) -> (r: Result<Self, (Self, WireError)>)
        requires
            4 < f.number,
            f.number <= 9,
        ensures
            match Self::spec_apply(self@, f@) {
                Ok(v) => r matches Ok(m) && m@ == v,
                Err(e) => r matches Err((m, x)) && x == e && m@ == self@,
            },
    {
        match f.number {
            5 => match read_u32(&f.value) {
                Ok(x) => Ok(Self { numperpage: Some(x), ..self }),
                Err(e) => Err((self, e)),
            },
            6 => match read_string(&f.value) {
                Ok(x) => Ok(Self { type_: Some(x), ..self }),
                Err(e) => Err((self, e)),
            },
            7 => match read_string(&f.value) {
                Ok(x) => Ok(Self { sortmethod: Some(x), ..self }),
                Err(e) => Err((self, e)),
            },
            9 => match read_u32(&f.value) {
                Ok(x) => Ok(Self { privacy: Some(x), ..self }),
                Err(e) => Err((self, e)),
            },
            _ => Ok(self),
        }
    }

    /// `applied`, for the records numbered from 10 to 15.
    #[verifier::rlimit(40)]
    fn applied_2(self, f: &Field) -> (r: Result<Self, (Self, WireError)>)
        requires
            9 < f.number,
            f.number <= 15,
        ensures
            match Self::spec_apply(self@, f@) {
                Ok(v) => r matches Ok(m) && m@ == v,
                Err(e) => r matches Err((m, x)) && x == e && m@ == self@,
            },
    {
        match f.number {
            10 => match read_string(&f.value) {
                Ok(x) => {
                    let mut m = self;
                    let ghost before = m.requiredtags@;
                    m.requiredtags.push(x);
                    assert(strings_view(m.requiredtags@) =~= strings_view(before).push(x@));
                    Ok(m)
                },
                Err(e) => Err((self, e)),
            },
            11 => match read_string(&f.value) {
                Ok(x) => {
                    let mut m = self;
                    let ghost before = m.excludedtags@;
                    m.excludedtags.push(x);
                    assert(strings_view(m.excludedtags@) =~= strings_view(before).push(x@));
                    Ok(m)
                },
                Err(e) => Err((self, e)),
            },
            14 => match read_u32(&f.value) {
                Ok(x) => Ok(Self { filetype: Some(x), ..self }),
                Err(e) => Err((self, e)),
            },
            15 => match read_u32(&f.value) {
                Ok(x) => Ok(Self { creator_appid: Some(x), ..self }),
                Err(e) => Err((self, e)),
            },
            _ => Ok(self),
        }
    }

    /// `applied`, for the records numbered from 16 to 19.
    #[verifier::rlimit(40)]
    fn applied_3(self, f: &Field) -> (r: Result<Self, (Self, WireError)>)
        requires
            15 < f.number,
            f.number <= 19,
        ensures
            match Self::spec_apply(self@, f@) {
                Ok(v) => r matches Ok(m) && m@ == v,
                Err(e) => r matches Err((m, x)) && x == e && m@ == self@,
            },
    {
        match f.number {
            16 => match read_string(&f.value) {
                Ok(x) => Ok(Self { match_cloud_filename: Some(x), ..self }),
                Err(e) => Err((self, e)),
            },
            17 => match read_bool(&f.value) {
                Ok(x) => Ok(Self { totalonly: Some(x), ..self }),
                Err(e) => Err((self, e)),
            },
            18 => match read_bool(&f.value) {
                Ok(x) => Ok(Self { ids_only: Some(x), ..self }),
                Err(e) => Err((self, e)),
            },
            19 => match read_bool(&f.value) {
                Ok(x) => Ok(Self { return_vote_data: Some(x), ..self }),
                Err(e) => Err((self, e)),
            },
            _ => Ok(self),
        }
    }

    /// `applied`, for the records numbered from 20 to 23.
    #[verifier::rlimit(40)]
    fn applied_4(self, f: &Field) -> (r: Result<Self, (Self, WireError)>)
        requires
            19 < f.number,
            f.number <= 23,
        ensures
            match Self::spec_apply(self@, f@) {
                Ok(v) => r matches Ok(m) && m@ == v,
                Err(e) => r matches Err((m, x)) && x == e && m@ == self@,
            },
    {
        match f.number {
            20 => match read_bool(&f.value) {
                Ok(x) => Ok(Self { return_tags: Some(x), ..self }),
                Err(e) => Err((self, e)),
            },
            21 => match read_bool(&f.value) {
                Ok(x) => Ok(Self { return_kv_tags: Some(x), ..self }),
                Err(e) => Err((self, e)),
            },
            22 => match read_bool(&f.value) {
                Ok(x) => Ok(Self { return_previews: Some(x), ..self }),
                Err(e) => Err((self, e)),
            },
            23 => match read_bool(&f.value) {
                Ok(x) => Ok(Self { return_children: Some(x), ..self }),
                Err(e) => Err((self, e)),
            },
            _ => Ok(self),
        }
    }

    /// `applied`, for the records numbered from 24 to 27.
    #[verifier::rlimit(40)]
    fn applied_5(self, f: &Field) -> (r: Result<Self, (Self, WireError)>)
        requires
            23 < f.number,
            f.number <= 27,
        ensures
            match Self::spec_apply(self@, f@) {
                Ok(v) => r matches Ok(m) && m@ == v,
                Err(e) => r matches Err((m, x)) && x == e && m@ == self@,
            },
    {
        match f.number {
            24 => match read_bool(&f.value) {
                Ok(x) => Ok(Self { return_short_description: Some(x), ..self }),
                Err(e) => Err((self, e)),
            },
            25 => match read_u32(&f.value) {
                Ok(x) => Ok(Self { startindex_override: Some(x), ..self }),
                Err(e) => Err((self, e)),
            },
            26 => match read_bool(&f.value) {
                Ok(x) => Ok(Self { return_for_sale_data: Some(x), ..self }),
                Err(e) => Err((self, e)),
            },
            27 => match read_u32(&f.value) {
                Ok(x) => Ok(Self { cache_max_age_seconds: Some(x), ..self }),
                Err(e) => Err((self, e)),
            },
            _ => Ok(self),
        }
    }

    /// `applied`, for the records numbered from 28 to 31.
    #[verifier::rlimit(40)]
    fn applied_6(self, f: &Field) -> (r: Result<Self, (Self, WireError)>)
        requires
            27 < f.number,
            f.number <= 31,
        ensures
            match Self::spec_apply(self@, f@) {
                Ok(v) => r matches Ok(m) && m@ == v,
                Err(e) => r matches Err((m, x)) && x == e && m@ == self@,
            },
    {
        match f.number {
            28 => match read_bool(&f.value) {
                Ok(x) => Ok(Self { return_metadata: Some(x), ..self }),
                Err(e) => Err((self, e)),
            },
            29 => match read_i32(&f.value) {
                Ok(x) => Ok(Self { language: Some(x), ..self }),
                Err(e) => Err((self, e)),
            },
            30 => match read_payload(&f.value) {
                Ok(b) => match crate::steammessages_publishedfile_steamclient::c_published_file_get_user_files_request::KVTag::decode(b) {
                    Ok(x) => {
                        let mut m = self;
                        let ghost before = m.required_kv_tags@;
                        m.required_kv_tags.push(x);
                        assert(crate::steammessages_publishedfile_steamclient::c_published_file_get_user_files_request::KVTag::view_all(m.required_kv_tags@) =~= crate::steammessages_publishedfile_steamclient::c_published_file_get_user_files_request::KVTag::view_all(before).push(x@));
                        Ok(m)
                    },
                    Err(e) => Err((self, e)),
                },
                Err(e) => Err((self, e)),
            },
            31 => match read_u32(&f.value) {
                Ok(x) => Ok(Self { return_playtime_stats: Some(x), ..self }),
                Err(e) => Err((self, e)),
            },
            _ => Ok(self),
        }
    }

    /// `applied`, for the records numbered from 32 to 35.
    #[verifier::rlimit(40)]
    fn applied_7(self, f: &Field) -> (r: Result<Self, (Self, WireError)>)
        requires
            31 < f.number,
            f.number <= 35,
        ensures
            match Self::spec_apply(self@, f@) {
                Ok(v) => r matches Ok(m) && m@ == v,
                Err(e) => r matches Err((m, x)) && x == e && m@ == self@,
            },
    {
        match f.number {
            32 => match read_bool(&f.value) {
                Ok(x) => Ok(Self { strip_description_bbcode: Some(x), ..self }),
                Err(e) => Err((self, e)),
            },
            33 => match read_i32(&f.value) {
                Ok(x) => Ok(Self { desired_revision: Some(crate::steammessages_publishedfile_steamclient::EPublishedFileRevision(x)), ..self }),
                Err(e) => Err((self, e)),
            },
            34 => match read_payload(&f.value) {
                Ok(b) => match crate::steammessages_publishedfile_steamclient::c_published_file_get_user_files_request::TagGroup::decode(b) {
                    Ok(x) => {
                        let mut m = self;
                        let ghost before = m.taggroups@;
                        m.taggroups.push(x);
                        assert(crate::steammessages_publishedfile_steamclient::c_published_file_get_user_files_request::TagGroup::view_all(m.taggroups@) =~= crate::steammessages_publishedfile_steamclient::c_published_file_get_user_files_request::TagGroup::view_all(before).push(x@));
                        Ok(m)
                    },
                    Err(e) => Err((self, e)),
                },
                Err(e) => Err((self, e)),
            },
            35 => match read_bool(&f.value) {
                Ok(x) => Ok(Self { return_reactions: Some(x), ..self }),
                Err(e) => Err((self, e)),
            },
            _ => Ok(self),
        }
    }

    /// `applied`, for the records numbered from 36 to 39.
    #[verifier::rlimit(40)]
    fn applied_8(self, f: &Field) -> (r: Result<Self, (Self, WireError)>)
        requires
            35 < f.number,
            f.number <= 39,
        ensures
            match Self::spec_apply(self@, f@) {
                Ok(v) => r matches Ok(m) && m@ == v,
                Err(e) => r matches Err((m, x)) && x == e && m@ == self@,
            },
    {
        match f.number {
            36 => match read_bool(&f.value) {
                Ok(x) => Ok(Self { return_apps: Some(x), ..self }),
                Err(e) => Err((self, e)),
            },
            37 => match read_packed_i32(&f.value) {
                Ok(xs) => {
                    let mut m = self;
                    let ghost before = m.excluded_content_descriptors@;
                    let mut es = crate::enums_productinfo::EContentDescriptorID::from_values(&xs);
                    let ghost added = es@;
                    m.excluded_content_descriptors.append(&mut es);
                    assert(crate::enums_productinfo::EContentDescriptorID::values(m.excluded_content_descriptors@) =~= crate::enums_productinfo::EContentDescriptorID::values(before) + crate::enums_productinfo::EContentDescriptorID::values(added));
                    Ok(m)
                },
                Err(e) => Err((self, e)),
            },
            38 => match read_bool(&f.value) {
                Ok(x) => Ok(Self { admin_query: Some(x), ..self }),
                Err(e) => Err((self, e)),
            },
            39 => match read_payload(&f.value) {
                Ok(b) => match crate::steammessages_publishedfile_steamclient::c_published_file_get_user_files_request::DateRange::decode(b) {
                    Ok(m) => Ok(Self { date_range_created: Some(m), ..self }),
                    Err(e) => Err((self, e)),
                },
                Err(e) => Err((self, e)),
            },
            _ => Ok(self),
        }
    }

    /// `applied`, for the records numbered above 39.
    #[verifier::rlimit(40)]
    fn applied_9(self, f: &Field) -> (r: Result<Self, (Self, WireError)>)
        requires
            39 < f.number,
        ensures
            match Self::spec_apply(self@, f@) {
                Ok(v) => r matches Ok(m) && m@ == v,
                Err(e) => r matches Err((m, x)) && x == e && m@ == self@,
            },
    {
        match f.number {
            40 => match read_payload(&f.value) {
                Ok(b) => match crate::steammessages_publishedfile_steamclient::c_published_file_get_user_files_request::DateRange::decode(b) {
                    Ok(m) => Ok(Self { date_range_updated: Some(m), ..self }),
                    Err(e) => Err((self, e)),
                },
                Err(e) => Err((self, e)),
            },
            _ => Ok(self),
        }
    }

    /// Reads the records `bytes` holds into this message, in order. When a record does
    /// not parse or is refused, the reading stops there: the message keeps what the
    /// records before it gave, and the error is returned.
    pub fn merge(&mut self, bytes: &[u8]) -> (r: Result<(), WireError>)
        ensures
            final(self)@ == merge_run(old(self)@, bytes@, Self::apply_fn()).0,
            r == match merge_run(old(self)@, bytes@, Self::apply_fn()).1 {
                None => Ok::<(), WireError>(()),
                Some(e) => Err::<(), WireError>(e),
            },
    {
        let ghost total = merge_run(self@, bytes@, Self::apply_fn());
        let mut cur = Self::default();
        std::mem::swap(&mut cur, self);
        let mut pos: usize = 0;
        assert(bytes@.skip(0) =~= bytes@);
        while pos < bytes.len()
            invariant
                pos <= bytes@.len(),
                total == merge_run(old(self)@, bytes@, Self::apply_fn()),
                merge_run(cur@, bytes@.skip(pos as int), Self::apply_fn()) == total,
            decreases bytes@.len() - pos,
        {
            let ghost s = bytes@.skip(pos as int);
            proof {
                lemma_merge_run_step(cur@, s, Self::apply_fn());
                lemma_parse_field_len(s);
            }
            match read_field(bytes, pos) {
                Ok((f, end)) => {
                    assert(bytes@.skip(end as int) =~= s.skip((end - pos) as int));
                    match cur.applied(&f) {
                        Ok(m) => {
                            cur = m;
                        },
                        Err((m, e)) => {
                            *self = m;
                            return Err(e);
                        },
                    }
                    pos = end;
                },
                Err(e) => {
                    *self = cur;
                    return Err(e);
                },
            }
        }
        assert(bytes@.skip(pos as int) =~= Seq::<u8>::empty());
        proof {
            lemma_merge_run_empty(cur@, Self::apply_fn());
        }
        *self = cur;
        Ok(())
    }

    /// Decodes a message from its encoding.
    pub fn decode(bytes: &[u8]) -> (r: Result<Self, WireError>)
        ensures
            match Self::spec_decode(bytes@) {
                Ok(v) => r matches Ok(m) && m@ == v,
                Err(e) => r matches Err(x) && x == e,
            },
    {
        proof {
            reveal(CPublishedFile_GetUserFiles_Request::spec_decode);
        }
        let mut m = Self::default();
        match m.merge(bytes) {
            Ok(()) => Ok(m),
            Err(e) => Err(e),
        }
    }

    /// The encoding of this message.
    pub fn encode_to_vec(&self) -> (r: Vec<u8>)
        ensures
            r@ == Self::spec_encode(self@),
    {
        let enc_required_kv_tags = crate::steammessages_publishedfile_steamclient::c_published_file_get_user_files_request::KVTag::encode_all(&self.required_kv_tags);
        let enc_taggroups = crate::steammessages_publishedfile_steamclient::c_published_file_get_user_files_request::TagGroup::encode_all(&self.taggroups);
        let enc_date_range_created = crate::steammessages_publishedfile_steamclient::c_published_file_get_user_files_request::DateRange::encode_opt(&self.date_range_created);
        let enc_date_range_updated = crate::steammessages_publishedfile_steamclient::c_published_file_get_user_files_request::DateRange::encode_opt(&self.date_range_updated);
        let val_excluded_content_descriptors = crate::enums_productinfo::EContentDescriptorID::values_of(&self.excluded_content_descriptors);
        let ghost v = self@;
        let mut out: Vec<u8> = Vec::new();
        let ghost p0 = Seq::<SpecField>::empty();
        put_opt_fixed64(&mut out, 1, self.steamid);
        let ghost p1 = p0 + opt_fixed64(1, v.steamid);
        proof {
            lemma_fields_bytes_concat(p0, opt_fixed64(1, v.steamid));
        }
        put_opt_u32(&mut out, 2, self.appid);
        let ghost p2 = p1 + opt_u32(2, v.appid);
        proof {
            lemma_fields_bytes_concat(p1, opt_u32(2, v.appid));
        }
        put_opt_u32(&mut out, 3, self.shortcutid);
        let ghost p3 = p2 + opt_u32(3, v.shortcutid);
        proof {
            lemma_fields_bytes_concat(p2, opt_u32(3, v.shortcutid));
        }
        put_opt_u32(&mut out, 4, self.page);
        let ghost p4 = p3 + opt_u32(4, v.page);
        proof {
            lemma_fields_bytes_concat(p3, opt_u32(4, v.page));
        }
        put_opt_u32(&mut out, 5, self.numperpage);
        let ghost p5 = p4 + opt_u32(5, v.numperpage);
        proof {
            lemma_fields_bytes_concat(p4, opt_u32(5, v.numperpage));
        }
        put_opt_string(&mut out, 6, &self.type_);
        let ghost p6 = p5 + opt_string(6, v.type_);
        proof {
            lemma_fields_bytes_concat(p5, opt_string(6, v.type_));
        }
        put_opt_string(&mut out, 7, &self.sortmethod);
        let ghost p7 = p6 + opt_string(7, v.sortmethod);
        proof {
            lemma_fields_bytes_concat(p6, opt_string(7, v.sortmethod));
        }
        put_opt_u32(&mut out, 9, self.privacy);
        let ghost p8 = p7 + opt_u32(9, v.privacy);
        proof {
            lemma_fields_bytes_concat(p7, opt_u32(9, v.privacy));
        }
        put_rep_string(&mut out, 10, &self.requiredtags);
        let ghost p9 = p8 + rep_string(10, v.requiredtags);
        proof {
            lemma_fields_bytes_concat(p8, rep_string(10, v.requiredtags));
        }
        put_rep_string(&mut out, 11, &self.excludedtags);
        let ghost p10 = p9 + rep_string(11, v.excludedtags);
        proof {
            lemma_fields_bytes_concat(p9, rep_string(11, v.excludedtags));
        }
        put_rep_bytes(&mut out, 30, &enc_required_kv_tags);
        let ghost p11 = p10 + rep_bytes(30, crate::steammessages_publishedfile_steamclient::c_published_file_get_user_files_request::KVTag::spec_encode_all(v.required_kv_tags));
        proof {
            lemma_fields_bytes_concat(p10, rep_bytes(30, crate::steammessages_publishedfile_steamclient::c_published_file_get_user_files_request::KVTag::spec_encode_all(v.required_kv_tags)));
        }
        put_opt_u32(&mut out, 14, self.filetype);
        let ghost p12 = p11 + opt_u32(14, v.filetype);
        proof {
            lemma_fields_bytes_concat(p11, opt_u32(14, v.filetype));
        }
        put_opt_u32(&mut out, 15, self.creator_appid);
        let ghost p13 = p12 + opt_u32(15, v.creator_appid);
        proof {
            lemma_fields_bytes_concat(p12, opt_u32(15, v.creator_appid));
        }
        put_opt_string(&mut out, 16, &self.match_cloud_filename);
        let ghost p14 = p13 + opt_string(16, v.match_cloud_filename);
        proof {
            lemma_fields_bytes_concat(p13, opt_string(16, v.match_cloud_filename));
        }
        put_opt_u32(&mut out, 27, self.cache_max_age_seconds);
        let ghost p15 = p14 + opt_u32(27, v.cache_max_age_seconds);
        proof {
            lemma_fields_bytes_concat(p14, opt_u32(27, v.cache_max_age_seconds));
        }
        put_opt_i32(&mut out, 29, self.language);
        let ghost p16 = p15 + opt_i32(29, v.language);
        proof {
            lemma_fields_bytes_concat(p15, opt_i32(29, v.language));
        }
        put_rep_bytes(&mut out, 34, &enc_taggroups);
        let ghost p17 = p16 + rep_bytes(34, crate::steammessages_publishedfile_steamclient::c_published_file_get_user_files_request::TagGroup::spec_encode_all(v.taggroups));
        proof {
            lemma_fields_bytes_concat(p16, rep_bytes(34, crate::steammessages_publishedfile_steamclient::c_published_file_get_user_files_request::TagGroup::spec_encode_all(v.taggroups)));
        }
        put_opt_bytes(&mut out, 39, &enc_date_range_created);
        let ghost p18 = p17 + opt_bytes(39, crate::steammessages_publishedfile_steamclient::c_published_file_get_user_files_request::DateRange::spec_encode_opt(v.date_range_created));
        proof {
            lemma_fields_bytes_concat(p17, opt_bytes(39, crate::steammessages_publishedfile_steamclient::c_published_file_get_user_files_request::DateRange::spec_encode_opt(v.date_range_created)));
        }
        put_opt_bytes(&mut out, 40, &enc_date_range_updated);
        let ghost p19 = p18 + opt_bytes(40, crate::steammessages_publishedfile_steamclient::c_published_file_get_user_files_request::DateRange::spec_encode_opt(v.date_range_updated));
        proof {
            lemma_fields_bytes_concat(p18, opt_bytes(40, crate::steammessages_publishedfile_steamclient::c_published_file_get_user_files_request::DateRange::spec_encode_opt(v.date_range_updated)));
        }
        put_rep_i32(&mut out, 37, &val_excluded_content_descriptors);
        let ghost p20 = p19 + rep_i32(37, v.excluded_content_descriptors);
        proof {
            lemma_fields_bytes_concat(p19, rep_i32(37, v.excluded_content_descriptors));
        }
        put_opt_bool(&mut out, 38, self.admin_query);
        let ghost p21 = p20 + opt_bool(38, v.admin_query);
        proof {
            lemma_fields_bytes_concat(p20, opt_bool(38, v.admin_query));
        }
        put_opt_bool(&mut out, 17, self.totalonly);
        let ghost p22 = p21 + opt_bool(17, v.totalonly);
        proof {
            lemma_fields_bytes_concat(p21, opt_bool(17, v.totalonly));
        }
        put_opt_bool(&mut out, 18, self.ids_only);
        let ghost p23 = p22 + opt_bool(18, v.ids_only);
        proof {
            lemma_fields_bytes_concat(p22, opt_bool(18, v.ids_only));
        }
        put_opt_bool(&mut out, 19, self.return_vote_data);
        let ghost p24 = p23 + opt_bool(19, v.return_vote_data);
        proof {
            lemma_fields_bytes_concat(p23, opt_bool(19, v.return_vote_data));
        }
        put_opt_bool(&mut out, 20, self.return_tags);
        let ghost p25 = p24 + opt_bool(20, v.return_tags);
        proof {
            lemma_fields_bytes_concat(p24, opt_bool(20, v.return_tags));
        }
        put_opt_bool(&mut out, 21, self.return_kv_tags);
        let ghost p26 = p25 + opt_bool(21, v.return_kv_tags);
        proof {
            lemma_fields_bytes_concat(p25, opt_bool(21, v.return_kv_tags));
        }
        put_opt_bool(&mut out, 22, self.return_previews);
        let ghost p27 = p26 + opt_bool(22, v.return_previews);
        proof {
            lemma_fields_bytes_concat(p26, opt_bool(22, v.return_previews));
        }
        put_opt_bool(&mut out, 23, self.return_children);
        let ghost p28 = p27 + opt_bool(23, v.return_children);
        proof {
            lemma_fields_bytes_concat(p27, opt_bool(23, v.return_children));
        }
        put_opt_bool(&mut out, 24, self.return_short_description);
        let ghost p29 = p28 + opt_bool(24, v.return_short_description);
        proof {
            lemma_fields_bytes_concat(p28, opt_bool(24, v.return_short_description));
        }
        put_opt_bool(&mut out, 26, self.return_for_sale_data);
        let ghost p30 = p29 + opt_bool(26, v.return_for_sale_data);
        proof {
            lemma_fields_bytes_concat(p29, opt_bool(26, v.return_for_sale_data));
        }
        put_opt_bool(&mut out, 28, self.return_metadata);
        let ghost p31 = p30 + opt_bool(28, v.return_metadata);
        proof {
            lemma_fields_bytes_concat(p30, opt_bool(28, v.return_metadata));
        }
        put_opt_u32(&mut out, 31, self.return_playtime_stats);
        let ghost p32 = p31 + opt_u32(31, v.return_playtime_stats);
        proof {
            lemma_fields_bytes_concat(p31, opt_u32(31, v.return_playtime_stats));
        }
        put_opt_bool(&mut out, 32, self.strip_description_bbcode);
        let ghost p33 = p32 + opt_bool(32, v.strip_description_bbcode);
        proof {
            lemma_fields_bytes_concat(p32, opt_bool(32, v.strip_description_bbcode));
        }
        put_opt_bool(&mut out, 35, self.return_reactions);
        let ghost p34 = p33 + opt_bool(35, v.return_reactions);
        proof {
            lemma_fields_bytes_concat(p33, opt_bool(35, v.return_reactions));
        }
        put_opt_u32(&mut out, 25, self.startindex_override);
        let ghost p35 = p34 + opt_u32(25, v.startindex_override);
        proof {
            lemma_fields_bytes_concat(p34, opt_u32(25, v.startindex_override));
        }
        put_opt_i32(&mut out, 33, match self.desired_revision { Some(e) => Some(e.0), None => None });
        let ghost p36 = p35 + opt_i32(33, v.desired_revision);
        proof {
            lemma_fields_bytes_concat(p35, opt_i32(33, v.desired_revision));
        }
        put_opt_bool(&mut out, 36, self.return_apps);
        let ghost p37 = p36 + opt_bool(36, v.return_apps);
        proof {
            lemma_fields_bytes_concat(p36, opt_bool(36, v.return_apps));
        }
        proof {
            reveal(CPublishedFile_GetUserFiles_Request::spec_encode);
        }
        assert(p37 == Self::spec_fields(v));
        out
    }

    /// Appends the encoding of this message to `out`.
    pub fn encode_raw(&self, out: &mut Vec<u8>)
        ensures
            final(out)@ == old(out)@ + Self::spec_encode(self@),
    {
        let mut b = self.encode_to_vec();
        out.append(&mut b);
    }

    /// The first `k` fields of `v`, the others as a fresh message has them.
    #[verifier::opaque]
    pub open spec fn spec_prefix(v: SpecCPublishedFile_GetUserFiles_Request, k: int) -> SpecCPublishedFile_GetUserFiles_Request {
        SpecCPublishedFile_GetUserFiles_Request {
            steamid: if 1 <= k { v.steamid } else { None },
            appid: if 2 <= k { v.appid } else { None },
            shortcutid: if 3 <= k { v.shortcutid } else { None },
            page: if 4 <= k { v.page } else { None },
            numperpage: if 5 <= k { v.numperpage } else { None },
            type_: if 6 <= k { v.type_ } else { None },
            sortmethod: if 7 <= k { v.sortmethod } else { None },
            privacy: if 8 <= k { v.privacy } else { None },
            requiredtags: if 9 <= k { v.requiredtags } else { Seq::empty() },
            excludedtags: if 10 <= k { v.excludedtags } else { Seq::empty() },
            required_kv_tags: if 11 <= k { v.required_kv_tags } else { Seq::empty() },
            filetype: if 12 <= k { v.filetype } else { None },
            creator_appid: if 13 <= k { v.creator_appid } else { None },
            match_cloud_filename: if 14 <= k { v.match_cloud_filename } else { None },
            cache_max_age_seconds: if 15 <= k { v.cache_max_age_seconds } else { None },
            language: if 16 <= k { v.language } else { None },
            taggroups: if 17 <= k { v.taggroups } else { Seq::empty() },
            date_range_created: if 18 <= k { v.date_range_created } else { None },
            date_range_updated: if 19 <= k { v.date_range_updated } else { None },
            excluded_content_descriptors: if 20 <= k { v.excluded_content_descriptors } else { Seq::empty() },
            admin_query: if 21 <= k { v.admin_query } else { None },
            totalonly: if 22 <= k { v.totalonly } else { None },
            ids_only: if 23 <= k { v.ids_only } else { None },
            return_vote_data: if 24 <= k { v.return_vote_data } else { None },
            return_tags: if 25 <= k { v.return_tags } else { None },
            return_kv_tags: if 26 <= k { v.return_kv_tags } else { None },
            return_previews: if 27 <= k { v.return_previews } else { None },
            return_children: if 28 <= k { v.return_children } else { None },
            return_short_description: if 29 <= k { v.return_short_description } else { None },
            return_for_sale_data: if 30 <= k { v.return_for_sale_data } else { None },
            return_metadata: if 31 <= k { v.return_metadata } else { None },
            return_playtime_stats: if 32 <= k { v.return_playtime_stats } else { None },
            strip_description_bbcode: if 33 <= k { v.strip_description_bbcode } else { None },
            return_reactions: if 34 <= k { v.return_reactions } else { None },
            startindex_override: if 35 <= k { v.startindex_override } else { None },
            desired_revision: if 36 <= k { v.desired_revision } else { None },
            return_apps: if 37 <= k { v.return_apps } else { None },
        }
    }

    /// Reading field 1 back, after the fields before it.
    proof fn lemma_field_steamid(v: SpecCPublishedFile_GetUserFiles_Request)
        ensures
            fold_fields(Self::spec_prefix(v, 0), opt_fixed64(1, v.steamid), Self::apply_fn())
                == Ok::<SpecCPublishedFile_GetUserFiles_Request, WireError>(Self::spec_prefix(v, 1)),
    {
        reveal(CPublishedFile_GetUserFiles_Request::spec_prefix);
        reveal(opt_fixed64);
        let apply = Self::apply_fn();
        let s = Self::spec_prefix(v, 0);
        lemma_fold_opt(s, 1, match v.steamid { Some(x) => Some(enc_fixed64(x)), None => None }, apply);
        if let Some(x) = v.steamid {
            lemma_u64_roundtrip(x);
        }
        assert(SpecCPublishedFile_GetUserFiles_Request { steamid: v.steamid, ..s } == Self::spec_prefix(v, 1));
    }

    /// Reading field 2 back, after the fields before it.
    proof fn lemma_field_appid(v: SpecCPublishedFile_GetUserFiles_Request)
        ensures
            fold_fields(Self::spec_prefix(v, 1), opt_u32(2, v.appid), Self::apply_fn())
                == Ok::<SpecCPublishedFile_GetUserFiles_Request, WireError>(Self::spec_prefix(v, 2)),
    {
        reveal(CPublishedFile_GetUserFiles_Request::spec_prefix);
        reveal(opt_u32);
        let apply = Self::apply_fn();
        let s = Self::spec_prefix(v, 1);
        lemma_fold_opt(s, 2, match v.appid { Some(x) => Some(enc_u32(x)), None => None }, apply);
        if let Some(x) = v.appid {
            lemma_u32_roundtrip(x);
        }
        assert(SpecCPublishedFile_GetUserFiles_Request { appid: v.appid, ..s } == Self::spec_prefix(v, 2));
    }

    /// Reading field 3 back, after the fields before it.
    proof fn lemma_field_shortcutid(v: SpecCPublishedFile_GetUserFiles_Request)
        ensures
            fold_fields(Self::spec_prefix(v, 2), opt_u32(3, v.shortcutid), Self::apply_fn())
                == Ok::<SpecCPublishedFile_GetUserFiles_Request, WireError>(Self::spec_prefix(v, 3)),
    {
        reveal(CPublishedFile_GetUserFiles_Request::spec_prefix);
        reveal(opt_u32);
        let apply = Self::apply_fn();
        let s = Self::spec_prefix(v, 2);
        lemma_fold_opt(s, 3, match v.shortcutid { Some(x) => Some(enc_u32(x)), None => None }, apply);
        if let Some(x) = v.shortcutid {
            lemma_u32_roundtrip(x);
        }
        assert(SpecCPublishedFile_GetUserFiles_Request { shortcutid: v.shortcutid, ..s } == Self::spec_prefix(v, 3));
    }

    /// Reading field 4 back, after the fields before it.
    proof fn lemma_field_page(v: SpecCPublishedFile_GetUserFiles_Request)
        ensures
            fold_fields(Self::spec_prefix(v, 3), opt_u32(4, v.page), Self::apply_fn())
                == Ok::<SpecCPublishedFile_GetUserFiles_Request, WireError>(Self::spec_prefix(v, 4)),
    {
        reveal(CPublishedFile_GetUserFiles_Request::spec_prefix);
        reveal(opt_u32);
        let apply = Self::apply_fn();
        let s = Self::spec_prefix(v, 3);
        lemma_fold_opt(s, 4, match v.page { Some(x) => Some(enc_u32(x)), None => None }, apply);
        if let Some(x) = v.page {
            lemma_u32_roundtrip(x);
        }
        assert(SpecCPublishedFile_GetUserFiles_Request { page: v.page, ..s } == Self::spec_prefix(v, 4));
    }

    /// Reading field 5 back, after the fields before it.
    proof fn lemma_field_numperpage(v: SpecCPublishedFile_GetUserFiles_Request)
        ensures
            fold_fields(Self::spec_prefix(v, 4), opt_u32(5, v.numperpage), Self::apply_fn())
                == Ok::<SpecCPublishedFile_GetUserFiles_Request, WireError>(Self::spec_prefix(v, 5)),
    {
        reveal(CPublishedFile_GetUserFiles_Request::spec_prefix);
        reveal(opt_u32);
        let apply = Self::apply_fn();
        let s = Self::spec_prefix(v, 4);
        lemma_fold_opt(s, 5, match v.numperpage { Some(x) => Some(enc_u32(x)), None => None }, apply);
        if let Some(x) = v.numperpage {
            lemma_u32_roundtrip(x);
        }
        assert(SpecCPublishedFile_GetUserFiles_Request { numperpage: v.numperpage, ..s } == Self::spec_prefix(v, 5));
    }

    /// Reading field 6 back, after the fields before it.
    proof fn lemma_field_type(v: SpecCPublishedFile_GetUserFiles_Request)
        ensures
            fold_fields(Self::spec_prefix(v, 5), opt_string(6, v.type_), Self::apply_fn())
                == Ok::<SpecCPublishedFile_GetUserFiles_Request, WireError>(Self::spec_prefix(v, 6)),
    {
        reveal(CPublishedFile_GetUserFiles_Request::spec_prefix);
        reveal(opt_string);
        let apply = Self::apply_fn();
        let s = Self::spec_prefix(v, 5);
        lemma_fold_opt(s, 6, match v.type_ { Some(x) => Some(enc_string(x)), None => None }, apply);
        if let Some(x) = v.type_ {
            lemma_string_roundtrip(x);
        }
        assert(SpecCPublishedFile_GetUserFiles_Request { type_: v.type_, ..s } == Self::spec_prefix(v, 6));
    }

    /// Reading field 7 back, after the fields before it.
    proof fn lemma_field_sortmethod(v: SpecCPublishedFile_GetUserFiles_Request)
        ensures
            fold_fields(Self::spec_prefix(v, 6), opt_string(7, v.sortmethod), Self::apply_fn())
                == Ok::<SpecCPublishedFile_GetUserFiles_Request, WireError>(Self::spec_prefix(v, 7)),
    {
        reveal(CPublishedFile_GetUserFiles_Request::spec_prefix);
        reveal(opt_string);
        let apply = Self::apply_fn();
        let s = Self::spec_prefix(v, 6);
        lemma_fold_opt(s, 7, match v.sortmethod { Some(x) => Some(enc_string(x)), None => None }, apply);
        if let Some(x) = v.sortmethod {
            lemma_string_roundtrip(x);
        }
        assert(SpecCPublishedFile_GetUserFiles_Request { sortmethod: v.sortmethod, ..s } == Self::spec_prefix(v, 7));
    }

    /// Reading field 9 back, after the fields before it.
    proof fn lemma_field_privacy(v: SpecCPublishedFile_GetUserFiles_Request)
        ensures
            fold_fields(Self::spec_prefix(v, 7), opt_u32(9, v.privacy), Self::apply_fn())
                == Ok::<SpecCPublishedFile_GetUserFiles_Request, WireError>(Self::spec_prefix(v, 8)),
    {
        reveal(CPublishedFile_GetUserFiles_Request::spec_prefix);
        reveal(opt_u32);
        let apply = Self::apply_fn();
        let s = Self::spec_prefix(v, 7);
        lemma_fold_opt(s, 9, match v.privacy { Some(x) => Some(enc_u32(x)), None => None }, apply);
        if let Some(x) = v.privacy {
            lemma_u32_roundtrip(x);
        }
        assert(SpecCPublishedFile_GetUserFiles_Request { privacy: v.privacy, ..s } == Self::spec_prefix(v, 8));
    }

    /// Reading field 10 back, after the fields before it.
    proof fn lemma_field_requiredtags(v: SpecCPublishedFile_GetUserFiles_Request)
        ensures
            fold_fields(Self::spec_prefix(v, 8), rep_string(10, v.requiredtags), Self::apply_fn())
                == Ok::<SpecCPublishedFile_GetUserFiles_Request, WireError>(Self::spec_prefix(v, 9)),
    {
        reveal(CPublishedFile_GetUserFiles_Request::spec_prefix);
        reveal(rep_string);
        let apply = Self::apply_fn();
        let s = Self::spec_prefix(v, 8);
        let l = rep_string(10, v.requiredtags);
        let xs = v.requiredtags;
        let st = Seq::new((xs.len() + 1) as nat, |j: int| SpecCPublishedFile_GetUserFiles_Request { requiredtags: xs.take(j), ..s });
        assert forall|j: int| 0 <= j < l.len() implies #[trigger] apply(st[j], l[j]) == Ok::<SpecCPublishedFile_GetUserFiles_Request, WireError>(st[j + 1]) by {
            lemma_string_roundtrip(xs[j]);
            assert(xs.take(j).push(xs[j]) =~= xs.take(j + 1));
        }
        lemma_fold_chain(l, st, apply);
        assert(xs.take(0) =~= Seq::<Seq<char>>::empty());
        assert(xs.take(xs.len() as int) =~= xs);
        assert(st[0] == s);
        assert(st[xs.len() as int] == Self::spec_prefix(v, 9));
    }

    /// Reading field 11 back, after the fields before it.
    proof fn lemma_field_excludedtags(v: SpecCPublishedFile_GetUserFiles_Request)
        ensures
            fold_fields(Self::spec_prefix(v, 9), rep_string(11, v.excludedtags), Self::apply_fn())
                == Ok::<SpecCPublishedFile_GetUserFiles_Request, WireError>(Self::spec_prefix(v, 10)),
    {
        reveal(CPublishedFile_GetUserFiles_Request::spec_prefix);
        reveal(rep_string);
        let apply = Self::apply_fn();
        let s = Self::spec_prefix(v, 9);
        let l = rep_string(11, v.excludedtags);
        let xs = v.excludedtags;
        let st = Seq::new((xs.len() + 1) as nat, |j: int| SpecCPublishedFile_GetUserFiles_Request { excludedtags: xs.take(j), ..s });
        assert forall|j: int| 0 <= j < l.len() implies #[trigger] apply(st[j], l[j]) == Ok::<SpecCPublishedFile_GetUserFiles_Request, WireError>(st[j + 1]) by {
            lemma_string_roundtrip(xs[j]);
            assert(xs.take(j).push(xs[j]) =~= xs.take(j + 1));
        }
        lemma_fold_chain(l, st, apply);
        assert(xs.take(0) =~= Seq::<Seq<char>>::empty());
        assert(xs.take(xs.len() as int) =~= xs);
        assert(st[0] == s);
        assert(st[xs.len() as int] == Self::spec_prefix(v, 10));
    }

    /// Reading field 30 back, after the fields before it.
    proof fn lemma_field_required_kv_tags(v: SpecCPublishedFile_GetUserFiles_Request)
        requires
            fields_wf(rep_bytes(30, crate::steammessages_publishedfile_steamclient::c_published_file_get_user_files_request::KVTag::spec_encode_all(v.required_kv_tags))),
        ensures
            fold_fields(Self::spec_prefix(v, 10), rep_bytes(30, crate::steammessages_publishedfile_steamclient::c_published_file_get_user_files_request::KVTag::spec_encode_all(v.required_kv_tags)), Self::apply_fn())
                == Ok::<SpecCPublishedFile_GetUserFiles_Request, WireError>(Self::spec_prefix(v, 11)),
    {
        reveal(CPublishedFile_GetUserFiles_Request::spec_prefix);
        reveal(rep_bytes);
        reveal(fields_wf);
        let apply = Self::apply_fn();
        let s = Self::spec_prefix(v, 10);
        let l = rep_bytes(30, crate::steammessages_publishedfile_steamclient::c_published_file_get_user_files_request::KVTag::spec_encode_all(v.required_kv_tags));
        let xs = v.required_kv_tags;
        let st = Seq::new((xs.len() + 1) as nat, |j: int| SpecCPublishedFile_GetUserFiles_Request { required_kv_tags: xs.take(j), ..s });
        assert forall|j: int| 0 <= j < l.len() implies #[trigger] apply(st[j], l[j]) == Ok::<SpecCPublishedFile_GetUserFiles_Request, WireError>(st[j + 1]) by {
            assert(field_wf(l[j]));
            crate::steammessages_publishedfile_steamclient::c_published_file_get_user_files_request::KVTag::lemma_decode_encode(xs[j]);
            assert(xs.take(j).push(xs[j]) =~= xs.take(j + 1));
        }
        lemma_fold_chain(l, st, apply);
        assert(xs.take(0) =~= Seq::<crate::steammessages_publishedfile_steamclient::c_published_file_get_user_files_request::SpecKVTag>::empty());
        assert(xs.take(xs.len() as int) =~= xs);
        assert(st[0] == s);
        assert(st[xs.len() as int] == Self::spec_prefix(v, 11));
    }

    /// Reading field 14 back, after the fields before it.
    proof fn lemma_field_filetype(v: SpecCPublishedFile_GetUserFiles_Request)
        ensures
            fold_fields(Self::spec_prefix(v, 11), opt_u32(14, v.filetype), Self::apply_fn())
                == Ok::<SpecCPublishedFile_GetUserFiles_Request, WireError>(Self::spec_prefix(v, 12)),
    {
        reveal(CPublishedFile_GetUserFiles_Request::spec_prefix);
        reveal(opt_u32);
        let apply = Self::apply_fn();
        let s = Self::spec_prefix(v, 11);
        lemma_fold_opt(s, 14, match v.filetype { Some(x) => Some(enc_u32(x)), None => None }, apply);
        if let Some(x) = v.filetype {
            lemma_u32_roundtrip(x);
        }
        assert(SpecCPublishedFile_GetUserFiles_Request { filetype: v.filetype, ..s } == Self::spec_prefix(v, 12));
    }

    /// Reading field 15 back, after the fields before it.
    proof fn lemma_field_creator_appid(v: SpecCPublishedFile_GetUserFiles_Request)
        ensures
            fold_fields(Self::spec_prefix(v, 12), opt_u32(15, v.creator_appid), Self::apply_fn())
                == Ok::<SpecCPublishedFile_GetUserFiles_Request, WireError>(Self::spec_prefix(v, 13)),
    {
        reveal(CPublishedFile_GetUserFiles_Request::spec_prefix);
        reveal(opt_u32);
        let apply = Self::apply_fn();
        let s = Self::spec_prefix(v, 12);
        lemma_fold_opt(s, 15, match v.creator_appid { Some(x) => Some(enc_u32(x)), None => None }, apply);
        if let Some(x) = v.creator_appid {
            lemma_u32_roundtrip(x);
        }
        assert(SpecCPublishedFile_GetUserFiles_Request { creator_appid: v.creator_appid, ..s } == Self::spec_prefix(v, 13));
    }

    /// Reading field 16 back, after the fields before it.
    proof fn lemma_field_match_cloud_filename(v: SpecCPublishedFile_GetUserFiles_Request)
        ensures
            fold_fields(Self::spec_prefix(v, 13), opt_string(16, v.match_cloud_filename), Self::apply_fn())
                == Ok::<SpecCPublishedFile_GetUserFiles_Request, WireError>(Self::spec_prefix(v, 14)),
    {
        reveal(CPublishedFile_GetUserFiles_Request::spec_prefix);
        reveal(opt_string);
        let apply = Self::apply_fn();
        let s = Self::spec_prefix(v, 13);
        lemma_fold_opt(s, 16, match v.match_cloud_filename { Some(x) => Some(enc_string(x)), None => None }, apply);
        if let Some(x) = v.match_cloud_filename {
            lemma_string_roundtrip(x);
        }
        assert(SpecCPublishedFile_GetUserFiles_Request { match_cloud_filename: v.match_cloud_filename, ..s } == Self::spec_prefix(v, 14));
    }

    /// Reading field 27 back, after the fields before it.
    proof fn lemma_field_cache_max_age_seconds(v: SpecCPublishedFile_GetUserFiles_Request)
        ensures
            fold_fields(Self::spec_prefix(v, 14), opt_u32(27, v.cache_max_age_seconds), Self::apply_fn())
                == Ok::<SpecCPublishedFile_GetUserFiles_Request, WireError>(Self::spec_prefix(v, 15)),
    {
        reveal(CPublishedFile_GetUserFiles_Request::spec_prefix);
        reveal(opt_u32);
        let apply = Self::apply_fn();
        let s = Self::spec_prefix(v, 14);
        lemma_fold_opt(s, 27, match v.cache_max_age_seconds { Some(x) => Some(enc_u32(x)), None => None }, apply);
        if let Some(x) = v.cache_max_age_seconds {
            lemma_u32_roundtrip(x);
        }
        assert(SpecCPublishedFile_GetUserFiles_Request { cache_max_age_seconds: v.cache_max_age_seconds, ..s } == Self::spec_prefix(v, 15));
    }

    /// Reading field 29 back, after the fields before it.
    proof fn lemma_field_language(v: SpecCPublishedFile_GetUserFiles_Request)
        ensures
            fold_fields(Self::spec_prefix(v, 15), opt_i32(29, v.language), Self::apply_fn())
                == Ok::<SpecCPublishedFile_GetUserFiles_Request, WireError>(Self::spec_prefix(v, 16)),
    {
        reveal(CPublishedFile_GetUserFiles_Request::spec_prefix);
        reveal(opt_i32);
        let apply = Self::apply_fn();
        let s = Self::spec_prefix(v, 15);
        lemma_fold_opt(s, 29, match v.language { Some(x) => Some(enc_i32(x)), None => None }, apply);
        if let Some(x) = v.language {
            lemma_i32_roundtrip(x);
        }
        assert(SpecCPublishedFile_GetUserFiles_Request { language: v.language, ..s } == Self::spec_prefix(v, 16));
    }

    /// Reading field 34 back, after the fields before it.
    proof fn lemma_field_taggroups(v: SpecCPublishedFile_GetUserFiles_Request)
        requires
            fields_wf(rep_bytes(34, crate::steammessages_publishedfile_steamclient::c_published_file_get_user_files_request::TagGroup::spec_encode_all(v.taggroups))),
        ensures
            fold_fields(Self::spec_prefix(v, 16), rep_bytes(34, crate::steammessages_publishedfile_steamclient::c_published_file_get_user_files_request::TagGroup::spec_encode_all(v.taggroups)), Self::apply_fn())
                == Ok::<SpecCPublishedFile_GetUserFiles_Request, WireError>(Self::spec_prefix(v, 17)),
    {
        reveal(CPublishedFile_GetUserFiles_Request::spec_prefix);
        reveal(rep_bytes);
        reveal(fields_wf);
        let apply = Self::apply_fn();
        let s = Self::spec_prefix(v, 16);
        let l = rep_bytes(34, crate::steammessages_publishedfile_steamclient::c_published_file_get_user_files_request::TagGroup::spec_encode_all(v.taggroups));
        let xs = v.taggroups;
        let st = Seq::new((xs.len() + 1) as nat, |j: int| SpecCPublishedFile_GetUserFiles_Request { taggroups: xs.take(j), ..s });
        assert forall|j: int| 0 <= j < l.len() implies #[trigger] apply(st[j], l[j]) == Ok::<SpecCPublishedFile_GetUserFiles_Request, WireError>(st[j + 1]) by {
            assert(field_wf(l[j]));
            crate::steammessages_publishedfile_steamclient::c_published_file_get_user_files_request::TagGroup::lemma_decode_encode(xs[j]);
            assert(xs.take(j).push(xs[j]) =~= xs.take(j + 1));
        }
        lemma_fold_chain(l, st, apply);
        assert(xs.take(0) =~= Seq::<crate::steammessages_publishedfile_steamclient::c_published_file_get_user_files_request::SpecTagGroup>::empty());
        assert(xs.take(xs.len() as int) =~= xs);
        assert(st[0] == s);
        assert(st[xs.len() as int] == Self::spec_prefix(v, 17));
    }

    /// Reading field 39 back, after the fields before it.
    proof fn lemma_field_date_range_created(v: SpecCPublishedFile_GetUserFiles_Request)
        requires
            fields_wf(opt_bytes(39, crate::steammessages_publishedfile_steamclient::c_published_file_get_user_files_request::DateRange::spec_encode_opt(v.date_range_created))),
        ensures
            fold_fields(Self::spec_prefix(v, 17), opt_bytes(39, crate::steammessages_publishedfile_steamclient::c_published_file_get_user_files_request::DateRange::spec_encode_opt(v.date_range_created)), Self::apply_fn())
                == Ok::<SpecCPublishedFile_GetUserFiles_Request, WireError>(Self::spec_prefix(v, 18)),
    {
        reveal(CPublishedFile_GetUserFiles_Request::spec_prefix);
        reveal(opt_bytes);
        reveal(fields_wf);
        let apply = Self::apply_fn();
        let s = Self::spec_prefix(v, 17);
        lemma_fold_opt(s, 39, match crate::steammessages_publishedfile_steamclient::c_published_file_get_user_files_request::DateRange::spec_encode_opt(v.date_range_created) { Some(x) => Some(enc_bytes(x)), None => None }, apply);
        if let Some(m) = v.date_range_created {
            assert(field_wf(opt_bytes(39, crate::steammessages_publishedfile_steamclient::c_published_file_get_user_files_request::DateRange::spec_encode_opt(v.date_range_created))[0]));
            crate::steammessages_publishedfile_steamclient::c_published_file_get_user_files_request::DateRange::lemma_decode_encode(m);
        }
        assert(SpecCPublishedFile_GetUserFiles_Request { date_range_created: v.date_range_created, ..s } == Self::spec_prefix(v, 18));
    }

    /// Reading field 40 back, after the fields before it.
    proof fn lemma_field_date_range_updated(v: SpecCPublishedFile_GetUserFiles_Request)
        requires
            fields_wf(opt_bytes(40, crate::steammessages_publishedfile_steamclient::c_published_file_get_user_files_request::DateRange::spec_encode_opt(v.date_range_updated))),
        ensures
            fold_fields(Self::spec_prefix(v, 18), opt_bytes(40, crate::steammessages_publishedfile_steamclient::c_published_file_get_user_files_request::DateRange::spec_encode_opt(v.date_range_updated)), Self::apply_fn())
                == Ok::<SpecCPublishedFile_GetUserFiles_Request, WireError>(Self::spec_prefix(v, 19)),
    {
        reveal(CPublishedFile_GetUserFiles_Request::spec_prefix);
        reveal(opt_bytes);
        reveal(fields_wf);
        let apply = Self::apply_fn();
        let s = Self::spec_prefix(v, 18);
        lemma_fold_opt(s, 40, match crate::steammessages_publishedfile_steamclient::c_published_file_get_user_files_request::DateRange::spec_encode_opt(v.date_range_updated) { Some(x) => Some(enc_bytes(x)), None => None }, apply);
        if let Some(m) = v.date_range_updated {
            assert(field_wf(opt_bytes(40, crate::steammessages_publishedfile_steamclient::c_published_file_get_user_files_request::DateRange::spec_encode_opt(v.date_range_updated))[0]));
            crate::steammessages_publishedfile_steamclient::c_published_file_get_user_files_request::DateRange::lemma_decode_encode(m);
        }
        assert(SpecCPublishedFile_GetUserFiles_Request { date_range_updated: v.date_range_updated, ..s } == Self::spec_prefix(v, 19));
    }

    /// Reading field 37 back, after the fields before it.
    proof fn lemma_field_excluded_content_descriptors(v: SpecCPublishedFile_GetUserFiles_Request)
        ensures
            fold_fields(Self::spec_prefix(v, 19), rep_i32(37, v.excluded_content_descriptors), Self::apply_fn())
                == Ok::<SpecCPublishedFile_GetUserFiles_Request, WireError>(Self::spec_prefix(v, 20)),
    {
        reveal(CPublishedFile_GetUserFiles_Request::spec_prefix);
        reveal(rep_i32);
        let apply = Self::apply_fn();
        let s = Self::spec_prefix(v, 19);
        let l = rep_i32(37, v.excluded_content_descriptors);
        let xs = v.excluded_content_descriptors;
        let st = Seq::new((xs.len() + 1) as nat, |j: int| SpecCPublishedFile_GetUserFiles_Request { excluded_content_descriptors: xs.take(j), ..s });
        assert forall|j: int| 0 <= j < l.len() implies #[trigger] apply(st[j], l[j]) == Ok::<SpecCPublishedFile_GetUserFiles_Request, WireError>(st[j + 1]) by {
            lemma_i32_roundtrip(xs[j]);
            assert(xs.take(j) + seq![xs[j]] =~= xs.take(j + 1));
        }
        lemma_fold_chain(l, st, apply);
        assert(xs.take(0) =~= Seq::<i32>::empty());
        assert(xs.take(xs.len() as int) =~= xs);
        assert(st[0] == s);
        assert(st[xs.len() as int] == Self::spec_prefix(v, 20));
    }

    /// Reading field 38 back, after the fields before it.
    proof fn lemma_field_admin_query(v: SpecCPublishedFile_GetUserFiles_Request)
        ensures
            fold_fields(Self::spec_prefix(v, 20), opt_bool(38, v.admin_query), Self::apply_fn())
                == Ok::<SpecCPublishedFile_GetUserFiles_Request, WireError>(Self::spec_prefix(v, 21)),
    {
        reveal(CPublishedFile_GetUserFiles_Request::spec_prefix);
        reveal(opt_bool);
        let apply = Self::apply_fn();
        let s = Self::spec_prefix(v, 20);
        lemma_fold_opt(s, 38, match v.admin_query { Some(x) => Some(enc_bool(x)), None => None }, apply);
        assert(SpecCPublishedFile_GetUserFiles_Request { admin_query: v.admin_query, ..s } == Self::spec_prefix(v, 21));
    }

    /// Reading field 17 back, after the fields before it.
    proof fn lemma_field_totalonly(v: SpecCPublishedFile_GetUserFiles_Request)
        ensures
            fold_fields(Self::spec_prefix(v, 21), opt_bool(17, v.totalonly), Self::apply_fn())
                == Ok::<SpecCPublishedFile_GetUserFiles_Request, WireError>(Self::spec_prefix(v, 22)),
    {
        reveal(CPublishedFile_GetUserFiles_Request::spec_prefix);
        reveal(opt_bool);
        let apply = Self::apply_fn();
        let s = Self::spec_prefix(v, 21);
        lemma_fold_opt(s, 17, match v.totalonly { Some(x) => Some(enc_bool(x)), None => None }, apply);
        assert(SpecCPublishedFile_GetUserFiles_Request { totalonly: v.totalonly, ..s } == Self::spec_prefix(v, 22));
    }

    /// Reading field 18 back, after the fields before it.
    proof fn lemma_field_ids_only(v: SpecCPublishedFile_GetUserFiles_Request)
        ensures
            fold_fields(Self::spec_prefix(v, 22), opt_bool(18, v.ids_only), Self::apply_fn())
                == Ok::<SpecCPublishedFile_GetUserFiles_Request, WireError>(Self::spec_prefix(v, 23)),
    {
        reveal(CPublishedFile_GetUserFiles_Request::spec_prefix);
        reveal(opt_bool);
        let apply = Self::apply_fn();
        let s = Self::spec_prefix(v, 22);
        lemma_fold_opt(s, 18, match v.ids_only { Some(x) => Some(enc_bool(x)), None => None }, apply);
        assert(SpecCPublishedFile_GetUserFiles_Request { ids_only: v.ids_only, ..s } == Self::spec_prefix(v, 23));
    }

    /// Reading field 19 back, after the fields before it.
    proof fn lemma_field_return_vote_data(v: SpecCPublishedFile_GetUserFiles_Request)
        ensures
            fold_fields(Self::spec_prefix(v, 23), opt_bool(19, v.return_vote_data), Self::apply_fn())
                == Ok::<SpecCPublishedFile_GetUserFiles_Request, WireError>(Self::spec_prefix(v, 24)),
    {
        reveal(CPublishedFile_GetUserFiles_Request::spec_prefix);
        reveal(opt_bool);
        let apply = Self::apply_fn();
        let s = Self::spec_prefix(v, 23);
        lemma_fold_opt(s, 19, match v.return_vote_data { Some(x) => Some(enc_bool(x)), None => None }, apply);
        assert(SpecCPublishedFile_GetUserFiles_Request { return_vote_data: v.return_vote_data, ..s } == Self::spec_prefix(v, 24));
    }

    /// Reading field 20 back, after the fields before it.
    proof fn lemma_field_return_tags(v: SpecCPublishedFile_GetUserFiles_Request)
        ensures
            fold_fields(Self::spec_prefix(v, 24), opt_bool(20, v.return_tags), Self::apply_fn())
                == Ok::<SpecCPublishedFile_GetUserFiles_Request, WireError>(Self::spec_prefix(v, 25)),
    {
        reveal(CPublishedFile_GetUserFiles_Request::spec_prefix);
        reveal(opt_bool);
        let apply = Self::apply_fn();
        let s = Self::spec_prefix(v, 24);
        lemma_fold_opt(s, 20, match v.return_tags { Some(x) => Some(enc_bool(x)), None => None }, apply);
        assert(SpecCPublishedFile_GetUserFiles_Request { return_tags: v.return_tags, ..s } == Self::spec_prefix(v, 25));
    }

    /// Reading field 21 back, after the fields before it.
    proof fn lemma_field_return_kv_tags(v: SpecCPublishedFile_GetUserFiles_Request)
        ensures
            fold_fields(Self::spec_prefix(v, 25), opt_bool(21, v.return_kv_tags), Self::apply_fn())
                == Ok::<SpecCPublishedFile_GetUserFiles_Request, WireError>(Self::spec_prefix(v, 26)),
    {
        reveal(CPublishedFile_GetUserFiles_Request::spec_prefix);
        reveal(opt_bool);
        let apply = Self::apply_fn();
        let s = Self::spec_prefix(v, 25);
        lemma_fold_opt(s, 21, match v.return_kv_tags { Some(x) => Some(enc_bool(x)), None => None }, apply);
        assert(SpecCPublishedFile_GetUserFiles_Request { return_kv_tags: v.return_kv_tags, ..s } == Self::spec_prefix(v, 26));
    }

    /// Reading field 22 back, after the fields before it.
    proof fn lemma_field_return_previews(v: SpecCPublishedFile_GetUserFiles_Request)
        ensures
            fold_fields(Self::spec_prefix(v, 26), opt_bool(22, v.return_previews), Self::apply_fn())
                == Ok::<SpecCPublishedFile_GetUserFiles_Request, WireError>(Self::spec_prefix(v, 27)),
    {
        reveal(CPublishedFile_GetUserFiles_Request::spec_prefix);
        reveal(opt_bool);
        let apply = Self::apply_fn();
        let s = Self::spec_prefix(v, 26);
        lemma_fold_opt(s, 22, match v.return_previews { Some(x) => Some(enc_bool(x)), None => None }, apply);
        assert(SpecCPublishedFile_GetUserFiles_Request { return_previews: v.return_previews, ..s } == Self::spec_prefix(v, 27));
    }

    /// Reading field 23 back, after the fields before it.
    proof fn lemma_field_return_children(v: SpecCPublishedFile_GetUserFiles_Request)
        ensures
            fold_fields(Self::spec_prefix(v, 27), opt_bool(23, v.return_children), Self::apply_fn())
                == Ok::<SpecCPublishedFile_GetUserFiles_Request, WireError>(Self::spec_prefix(v, 28)),
    {
        reveal(CPublishedFile_GetUserFiles_Request::spec_prefix);
        reveal(opt_bool);
        let apply = Self::apply_fn();
        let s = Self::spec_prefix(v, 27);
        lemma_fold_opt(s, 23, match v.return_children { Some(x) => Some(enc_bool(x)), None => None }, apply);
        assert(SpecCPublishedFile_GetUserFiles_Request { return_children: v.return_children, ..s } == Self::spec_prefix(v, 28));
    }

    /// Reading field 24 back, after the fields before it.
    proof fn lemma_field_return_short_description(v: SpecCPublishedFile_GetUserFiles_Request)
        ensures
            fold_fields(Self::spec_prefix(v, 28), opt_bool(24, v.return_short_description), Self::apply_fn())
                == Ok::<SpecCPublishedFile_GetUserFiles_Request, WireError>(Self::spec_prefix(v, 29)),
    {
        reveal(CPublishedFile_GetUserFiles_Request::spec_prefix);
        reveal(opt_bool);
        let apply = Self::apply_fn();
        let s = Self::spec_prefix(v, 28);
        lemma_fold_opt(s, 24, match v.return_short_description { Some(x) => Some(enc_bool(x)), None => None }, apply);
        assert(SpecCPublishedFile_GetUserFiles_Request { return_short_description: v.return_short_description, ..s } == Self::spec_prefix(v, 29));
    }

    /// Reading field 26 back, after the fields before it.
    proof fn lemma_field_return_for_sale_data(v: SpecCPublishedFile_GetUserFiles_Request)
        ensures
            fold_fields(Self::spec_prefix(v, 29), opt_bool(26, v.return_for_sale_data), Self::apply_fn())
                == Ok::<SpecCPublishedFile_GetUserFiles_Request, WireError>(Self::spec_prefix(v, 30)),
    {
        reveal(CPublishedFile_GetUserFiles_Request::spec_prefix);
        reveal(opt_bool);
        let apply = Self::apply_fn();
        let s = Self::spec_prefix(v, 29);
        lemma_fold_opt(s, 26, match v.return_for_sale_data { Some(x) => Some(enc_bool(x)), None => None }, apply);
        assert(SpecCPublishedFile_GetUserFiles_Request { return_for_sale_data: v.return_for_sale_data, ..s } == Self::spec_prefix(v, 30));
    }

    /// Reading field 28 back, after the fields before it.
    proof fn lemma_field_return_metadata(v: SpecCPublishedFile_GetUserFiles_Request)
        ensures
            fold_fields(Self::spec_prefix(v, 30), opt_bool(28, v.return_metadata), Self::apply_fn())
                == Ok::<SpecCPublishedFile_GetUserFiles_Request, WireError>(Self::spec_prefix(v, 31)),
    {
        reveal(CPublishedFile_GetUserFiles_Request::spec_prefix);
        reveal(opt_bool);
        let apply = Self::apply_fn();
        let s = Self::spec_prefix(v, 30);
        lemma_fold_opt(s, 28, match v.return_metadata { Some(x) => Some(enc_bool(x)), None => None }, apply);
        assert(SpecCPublishedFile_GetUserFiles_Request { return_metadata: v.return_metadata, ..s } == Self::spec_prefix(v, 31));
    }

    /// Reading field 31 back, after the fields before it.
    proof fn lemma_field_return_playtime_stats(v: SpecCPublishedFile_GetUserFiles_Request)
        ensures
            fold_fields(Self::spec_prefix(v, 31), opt_u32(31, v.return_playtime_stats), Self::apply_fn())
                == Ok::<SpecCPublishedFile_GetUserFiles_Request, WireError>(Self::spec_prefix(v, 32)),
    {
        reveal(CPublishedFile_GetUserFiles_Request::spec_prefix);
        reveal(opt_u32);
        let apply = Self::apply_fn();
        let s = Self::spec_prefix(v, 31);
        lemma_fold_opt(s, 31, match v.return_playtime_stats { Some(x) => Some(enc_u32(x)), None => None }, apply);
        if let Some(x) = v.return_playtime_stats {
            lemma_u32_roundtrip(x);
        }
        assert(SpecCPublishedFile_GetUserFiles_Request { return_playtime_stats: v.return_playtime_stats, ..s } == Self::spec_prefix(v, 32));
    }

    /// Reading field 32 back, after the fields before it.
    proof fn lemma_field_strip_description_bbcode(v: SpecCPublishedFile_GetUserFiles_Request)
        ensures
            fold_fields(Self::spec_prefix(v, 32), opt_bool(32, v.strip_description_bbcode), Self::apply_fn())
                == Ok::<SpecCPublishedFile_GetUserFiles_Request, WireError>(Self::spec_prefix(v, 33)),
    {
        reveal(CPublishedFile_GetUserFiles_Request::spec_prefix);
        reveal(opt_bool);
        let apply = Self::apply_fn();
        let s = Self::spec_prefix(v, 32);
        lemma_fold_opt(s, 32, match v.strip_description_bbcode { Some(x) => Some(enc_bool(x)), None => None }, apply);
        assert(SpecCPublishedFile_GetUserFiles_Request { strip_description_bbcode: v.strip_description_bbcode, ..s } == Self::spec_prefix(v, 33));
    }

    /// Reading field 35 back, after the fields before it.
    proof fn lemma_field_return_reactions(v: SpecCPublishedFile_GetUserFiles_Request)
        ensures
            fold_fields(Self::spec_prefix(v, 33), opt_bool(35, v.return_reactions), Self::apply_fn())
                == Ok::<SpecCPublishedFile_GetUserFiles_Request, WireError>(Self::spec_prefix(v, 34)),
    {
        reveal(CPublishedFile_GetUserFiles_Request::spec_prefix);
        reveal(opt_bool);
        let apply = Self::apply_fn();
        let s = Self::spec_prefix(v, 33);
        lemma_fold_opt(s, 35, match v.return_reactions { Some(x) => Some(enc_bool(x)), None => None }, apply);
        assert(SpecCPublishedFile_GetUserFiles_Request { return_reactions: v.return_reactions, ..s } == Self::spec_prefix(v, 34));
    }

    /// Reading field 25 back, after the fields before it.
    proof fn lemma_field_startindex_override(v: SpecCPublishedFile_GetUserFiles_Request)
        ensures
            fold_fields(Self::spec_prefix(v, 34), opt_u32(25, v.startindex_override), Self::apply_fn())
                == Ok::<SpecCPublishedFile_GetUserFiles_Request, WireError>(Self::spec_prefix(v, 35)),
    {
        reveal(CPublishedFile_GetUserFiles_Request::spec_prefix);
        reveal(opt_u32);
        let apply = Self::apply_fn();
        let s = Self::spec_prefix(v, 34);
        lemma_fold_opt(s, 25, match v.startindex_override { Some(x) => Some(enc_u32(x)), None => None }, apply);
        if let Some(x) = v.startindex_override {
            lemma_u32_roundtrip(x);
        }
        assert(SpecCPublishedFile_GetUserFiles_Request { startindex_override: v.startindex_override, ..s } == Self::spec_prefix(v, 35));
    }

    /// Reading field 33 back, after the fields before it.
    proof fn lemma_field_desired_revision(v: SpecCPublishedFile_GetUserFiles_Request)
        ensures
            fold_fields(Self::spec_prefix(v, 35), opt_i32(33, v.desired_revision), Self::apply_fn())
                == Ok::<SpecCPublishedFile_GetUserFiles_Request, WireError>(Self::spec_prefix(v, 36)),
    {
        reveal(CPublishedFile_GetUserFiles_Request::spec_prefix);
        reveal(opt_i32);
        let apply = Self::apply_fn();
        let s = Self::spec_prefix(v, 35);
        lemma_fold_opt(s, 33, match v.desired_revision { Some(x) => Some(enc_i32(x)), None => None }, apply);
        if let Some(x) = v.desired_revision {
            lemma_i32_roundtrip(x);
        }
        assert(SpecCPublishedFile_GetUserFiles_Request { desired_revision: v.desired_revision, ..s } == Self::spec_prefix(v, 36));
    }

    /// Reading field 36 back, after the fields before it.
    proof fn lemma_field_return_apps(v: SpecCPublishedFile_GetUserFiles_Request)
        ensures
            fold_fields(Self::spec_prefix(v, 36), opt_bool(36, v.return_apps), Self::apply_fn())
                == Ok::<SpecCPublishedFile_GetUserFiles_Request, WireError>(Self::spec_prefix(v, 37)),
    {
        reveal(CPublishedFile_GetUserFiles_Request::spec_prefix);
        reveal(opt_bool);
        let apply = Self::apply_fn();
        let s = Self::spec_prefix(v, 36);
        lemma_fold_opt(s, 36, match v.return_apps { Some(x) => Some(enc_bool(x)), None => None }, apply);
        assert(SpecCPublishedFile_GetUserFiles_Request { return_apps: v.return_apps, ..s } == Self::spec_prefix(v, 37));
    }

    /// Whether this message declares field number `n`.
    pub open spec fn declares(n: u32) -> bool {
        n == 1 || n == 2 || n == 3 || n == 4 || n == 5 || n == 6 || n == 7 || n == 9 || n == 10 || n == 11 || n == 30 || n == 14 || n == 15 || n == 16 || n == 27 || n == 29 || n == 34 || n == 39 || n == 40 || n == 37 || n == 38 || n == 17 || n == 18 || n == 19 || n == 20 || n == 21 || n == 22 || n == 23 || n == 24 || n == 26 || n == 28 || n == 31 || n == 32 || n == 35 || n == 25 || n == 33 || n == 36
    }

    /// A record with a number this message does not declare is passed over: well-formed
    /// bytes decode to the same message with such a record after them as without it.
    pub proof fn lemma_unknown_field(bytes: Seq<u8>, f: SpecField)
        requires
            parse_fields(bytes) is Ok,
            field_wf(f),
            !Self::declares(f.number),
        ensures
            Self::spec_decode(bytes + field_bytes(f)) == Self::spec_decode(bytes),
    {
        reveal(CPublishedFile_GetUserFiles_Request::spec_decode);
        lemma_parse_fields_append(bytes, f);
        let fs = parse_fields(bytes).unwrap();
        let apply = Self::apply_fn();
        lemma_fold_concat(Self::spec_default(), fs, seq![f], apply);
        assert(fs.push(f) =~= fs + seq![f]);
        if let Ok(w) = fold_fields(Self::spec_default(), fs, apply) {
            lemma_fold_single(w, f, apply);
        }
        lemma_merge_run_fold(Self::spec_default(), bytes, apply);
        lemma_merge_run_fold(Self::spec_default(), bytes + field_bytes(f), apply);
    }

    /// Decoding the encoding of a message gives the message back.
    pub proof fn lemma_decode_encode(v: SpecCPublishedFile_GetUserFiles_Request)
        requires
            Self::spec_encode(v).len() <= u64::MAX,
        ensures
            Self::spec_decode(Self::spec_encode(v)) == Ok::<SpecCPublishedFile_GetUserFiles_Request, WireError>(v),
    {
        let apply = Self::apply_fn();
        let d = Self::spec_default();
        let p0 = Seq::<SpecField>::empty();
        let l1 = opt_fixed64(1, v.steamid);
        let p1 = p0 + l1;
        let l2 = opt_u32(2, v.appid);
        let p2 = p1 + l2;
        let l3 = opt_u32(3, v.shortcutid);
        let p3 = p2 + l3;
        let l4 = opt_u32(4, v.page);
        let p4 = p3 + l4;
        let l5 = opt_u32(5, v.numperpage);
        let p5 = p4 + l5;
        let l6 = opt_string(6, v.type_);
        let p6 = p5 + l6;
        let l7 = opt_string(7, v.sortmethod);
        let p7 = p6 + l7;
        let l8 = opt_u32(9, v.privacy);
        let p8 = p7 + l8;
        let l9 = rep_string(10, v.requiredtags);
        let p9 = p8 + l9;
        let l10 = rep_string(11, v.excludedtags);
        let p10 = p9 + l10;
        let l11 = rep_bytes(30, crate::steammessages_publishedfile_steamclient::c_published_file_get_user_files_request::KVTag::spec_encode_all(v.required_kv_tags));
        let p11 = p10 + l11;
        let l12 = opt_u32(14, v.filetype);
        let p12 = p11 + l12;
        let l13 = opt_u32(15, v.creator_appid);
        let p13 = p12 + l13;
        let l14 = opt_string(16, v.match_cloud_filename);
        let p14 = p13 + l14;
        let l15 = opt_u32(27, v.cache_max_age_seconds);
        let p15 = p14 + l15;
        let l16 = opt_i32(29, v.language);
        let p16 = p15 + l16;
        let l17 = rep_bytes(34, crate::steammessages_publishedfile_steamclient::c_published_file_get_user_files_request::TagGroup::spec_encode_all(v.taggroups));
        let p17 = p16 + l17;
        let l18 = opt_bytes(39, crate::steammessages_publishedfile_steamclient::c_published_file_get_user_files_request::DateRange::spec_encode_opt(v.date_range_created));
        let p18 = p17 + l18;
        let l19 = opt_bytes(40, crate::steammessages_publishedfile_steamclient::c_published_file_get_user_files_request::DateRange::spec_encode_opt(v.date_range_updated));
        let p19 = p18 + l19;
        let l20 = rep_i32(37, v.excluded_content_descriptors);
        let p20 = p19 + l20;
        let l21 = opt_bool(38, v.admin_query);
        let p21 = p20 + l21;
        let l22 = opt_bool(17, v.totalonly);
        let p22 = p21 + l22;
        let l23 = opt_bool(18, v.ids_only);
        let p23 = p22 + l23;
        let l24 = opt_bool(19, v.return_vote_data);
        let p24 = p23 + l24;
        let l25 = opt_bool(20, v.return_tags);
        let p25 = p24 + l25;
        let l26 = opt_bool(21, v.return_kv_tags);
        let p26 = p25 + l26;
        let l27 = opt_bool(22, v.return_previews);
        let p27 = p26 + l27;
        let l28 = opt_bool(23, v.return_children);
        let p28 = p27 + l28;
        let l29 = opt_bool(24, v.return_short_description);
        let p29 = p28 + l29;
        let l30 = opt_bool(26, v.return_for_sale_data);
        let p30 = p29 + l30;
        let l31 = opt_bool(28, v.return_metadata);
        let p31 = p30 + l31;
        let l32 = opt_u32(31, v.return_playtime_stats);
        let p32 = p31 + l32;
        let l33 = opt_bool(32, v.strip_description_bbcode);
        let p33 = p32 + l33;
        let l34 = opt_bool(35, v.return_reactions);
        let p34 = p33 + l34;
        let l35 = opt_u32(25, v.startindex_override);
        let p35 = p34 + l35;
        let l36 = opt_i32(33, v.desired_revision);
        let p36 = p35 + l36;
        let l37 = opt_bool(36, v.return_apps);
        let p37 = p36 + l37;
        assert(parse_fields(Self::spec_encode(v)) == Ok::<Seq<SpecField>, WireError>(p37) && fields_wf(l11) && fields_wf(l17) && fields_wf(l18) && fields_wf(l19)) by {
            reveal(CPublishedFile_GetUserFiles_Request::spec_encode);
            assert(numbers_ok(p0) && fields_wf(p0)) by {
                reveal(numbers_ok);
                reveal(fields_wf);
            }
            lemma_opt_fixed64_numbered(1, v.steamid);
            lemma_fields_wf_concat(p0, l1);
            lemma_opt_u32_numbered(2, v.appid);
            lemma_fields_wf_concat(p1, l2);
            lemma_opt_u32_numbered(3, v.shortcutid);
            lemma_fields_wf_concat(p2, l3);
            lemma_opt_u32_numbered(4, v.page);
            lemma_fields_wf_concat(p3, l4);
            lemma_opt_u32_numbered(5, v.numperpage);
            lemma_fields_wf_concat(p4, l5);
            lemma_opt_string_numbered(6, v.type_);
            lemma_fields_wf_concat(p5, l6);
            lemma_opt_string_numbered(7, v.sortmethod);
            lemma_fields_wf_concat(p6, l7);
            lemma_opt_u32_numbered(9, v.privacy);
            lemma_fields_wf_concat(p7, l8);
            lemma_rep_string_numbered(10, v.requiredtags);
            lemma_fields_wf_concat(p8, l9);
            lemma_rep_string_numbered(11, v.excludedtags);
            lemma_fields_wf_concat(p9, l10);
            lemma_rep_bytes_numbered(30, crate::steammessages_publishedfile_steamclient::c_published_file_get_user_files_request::KVTag::spec_encode_all(v.required_kv_tags));
            lemma_fields_wf_concat(p10, l11);
            lemma_opt_u32_numbered(14, v.filetype);
            lemma_fields_wf_concat(p11, l12);
            lemma_opt_u32_numbered(15, v.creator_appid);
            lemma_fields_wf_concat(p12, l13);
            lemma_opt_string_numbered(16, v.match_cloud_filename);
            lemma_fields_wf_concat(p13, l14);
            lemma_opt_u32_numbered(27, v.cache_max_age_seconds);
            lemma_fields_wf_concat(p14, l15);
            lemma_opt_i32_numbered(29, v.language);
            lemma_fields_wf_concat(p15, l16);
            lemma_rep_bytes_numbered(34, crate::steammessages_publishedfile_steamclient::c_published_file_get_user_files_request::TagGroup::spec_encode_all(v.taggroups));
            lemma_fields_wf_concat(p16, l17);
            lemma_opt_bytes_numbered(39, crate::steammessages_publishedfile_steamclient::c_published_file_get_user_files_request::DateRange::spec_encode_opt(v.date_range_created));
            lemma_fields_wf_concat(p17, l18);
            lemma_opt_bytes_numbered(40, crate::steammessages_publishedfile_steamclient::c_published_file_get_user_files_request::DateRange::spec_encode_opt(v.date_range_updated));
            lemma_fields_wf_concat(p18, l19);
            lemma_rep_i32_numbered(37, v.excluded_content_descriptors);
            lemma_fields_wf_concat(p19, l20);
            lemma_opt_bool_numbered(38, v.admin_query);
            lemma_fields_wf_concat(p20, l21);
            lemma_opt_bool_numbered(17, v.totalonly);
            lemma_fields_wf_concat(p21, l22);
            lemma_opt_bool_numbered(18, v.ids_only);
            lemma_fields_wf_concat(p22, l23);
            lemma_opt_bool_numbered(19, v.return_vote_data);
            lemma_fields_wf_concat(p23, l24);
            lemma_opt_bool_numbered(20, v.return_tags);
            lemma_fields_wf_concat(p24, l25);
            lemma_opt_bool_numbered(21, v.return_kv_tags);
            lemma_fields_wf_concat(p25, l26);
            lemma_opt_bool_numbered(22, v.return_previews);
            lemma_fields_wf_concat(p26, l27);
            lemma_opt_bool_numbered(23, v.return_children);
            lemma_fields_wf_concat(p27, l28);
            lemma_opt_bool_numbered(24, v.return_short_description);
            lemma_fields_wf_concat(p28, l29);
            lemma_opt_bool_numbered(26, v.return_for_sale_data);
            lemma_fields_wf_concat(p29, l30);
            lemma_opt_bool_numbered(28, v.return_metadata);
            lemma_fields_wf_concat(p30, l31);
            lemma_opt_u32_numbered(31, v.return_playtime_stats);
            lemma_fields_wf_concat(p31, l32);
            lemma_opt_bool_numbered(32, v.strip_description_bbcode);
            lemma_fields_wf_concat(p32, l33);
            lemma_opt_bool_numbered(35, v.return_reactions);
            lemma_fields_wf_concat(p33, l34);
            lemma_opt_u32_numbered(25, v.startindex_override);
            lemma_fields_wf_concat(p34, l35);
            lemma_opt_i32_numbered(33, v.desired_revision);
            lemma_fields_wf_concat(p35, l36);
            lemma_opt_bool_numbered(36, v.return_apps);
            lemma_fields_wf_concat(p36, l37);
            assert(p37 == Self::spec_fields(v));
            lemma_fields_wf_from_len(p37);
            lemma_fields_roundtrip(p37);
        }
        assert(Self::spec_prefix(v, 0) == d) by {
            reveal(CPublishedFile_GetUserFiles_Request::spec_prefix);
        }
        lemma_fold_empty(d, apply);
        lemma_fold_concat(d, p0, l1, apply);
        Self::lemma_field_steamid(v);
        lemma_fold_concat(d, p1, l2, apply);
        Self::lemma_field_appid(v);
        lemma_fold_concat(d, p2, l3, apply);
        Self::lemma_field_shortcutid(v);
        lemma_fold_concat(d, p3, l4, apply);
        Self::lemma_field_page(v);
        lemma_fold_concat(d, p4, l5, apply);
        Self::lemma_field_numperpage(v);
        lemma_fold_concat(d, p5, l6, apply);
        Self::lemma_field_type(v);
        lemma_fold_concat(d, p6, l7, apply);
        Self::lemma_field_sortmethod(v);
        lemma_fold_concat(d, p7, l8, apply);
        Self::lemma_field_privacy(v);
        lemma_fold_concat(d, p8, l9, apply);
        Self::lemma_field_requiredtags(v);
        lemma_fold_concat(d, p9, l10, apply);
        Self::lemma_field_excludedtags(v);
        lemma_fold_concat(d, p10, l11, apply);
        Self::lemma_field_required_kv_tags(v);
        lemma_fold_concat(d, p11, l12, apply);
        Self::lemma_field_filetype(v);
        lemma_fold_concat(d, p12, l13, apply);
        Self::lemma_field_creator_appid(v);
        lemma_fold_concat(d, p13, l14, apply);
        Self::lemma_field_match_cloud_filename(v);
        lemma_fold_concat(d, p14, l15, apply);
        Self::lemma_field_cache_max_age_seconds(v);
        lemma_fold_concat(d, p15, l16, apply);
        Self::lemma_field_language(v);
        lemma_fold_concat(d, p16, l17, apply);
        Self::lemma_field_taggroups(v);
        lemma_fold_concat(d, p17, l18, apply);
        Self::lemma_field_date_range_created(v);
        lemma_fold_concat(d, p18, l19, apply);
        Self::lemma_field_date_range_updated(v);
        lemma_fold_concat(d, p19, l20, apply);
        Self::lemma_field_excluded_content_descriptors(v);
        lemma_fold_concat(d, p20, l21, apply);
        Self::lemma_field_admin_query(v);
        lemma_fold_concat(d, p21, l22, apply);
        Self::lemma_field_totalonly(v);
        lemma_fold_concat(d, p22, l23, apply);
        Self::lemma_field_ids_only(v);
        lemma_fold_concat(d, p23, l24, apply);
        Self::lemma_field_return_vote_data(v);
        lemma_fold_concat(d, p24, l25, apply);
        Self::lemma_field_return_tags(v);
        lemma_fold_concat(d, p25, l26, apply);
        Self::lemma_field_return_kv_tags(v);
        lemma_fold_concat(d, p26, l27, apply);
        Self::lemma_field_return_previews(v);
        lemma_fold_concat(d, p27, l28, apply);
        Self::lemma_field_return_children(v);
        lemma_fold_concat(d, p28, l29, apply);
        Self::lemma_field_return_short_description(v);
        lemma_fold_concat(d, p29, l30, apply);
        Self::lemma_field_return_for_sale_data(v);
        lemma_fold_concat(d, p30, l31, apply);
        Self::lemma_field_return_metadata(v);
        lemma_fold_concat(d, p31, l32, apply);
        Self::lemma_field_return_playtime_stats(v);
        lemma_fold_concat(d, p32, l33, apply);
        Self::lemma_field_strip_description_bbcode(v);
        lemma_fold_concat(d, p33, l34, apply);
        Self::lemma_field_return_reactions(v);
        lemma_fold_concat(d, p34, l35, apply);
        Self::lemma_field_startindex_override(v);
        lemma_fold_concat(d, p35, l36, apply);
        Self::lemma_field_desired_revision(v);
        lemma_fold_concat(d, p36, l37, apply);
        Self::lemma_field_return_apps(v);
        assert(Self::spec_prefix(v, 37) == v) by {
            reveal(CPublishedFile_GetUserFiles_Request::spec_prefix);
        }
        lemma_merge_run_fold(d, Self::spec_encode(v), apply);
        assert(Self::spec_decode(Self::spec_encode(v)) == Ok::<SpecCPublishedFile_GetUserFiles_Request, WireError>(v)) by {
            reveal(CPublishedFile_GetUserFiles_Request::spec_decode);
        }
    }
}

/// `CPublishedFile_GetUserFiles_Response`, as Valve's schema declares it.
#[derive(Debug, Clone, PartialEq)]
pub struct CPublishedFile_GetUserFiles_Response {
    /// Field 1.
    pub total: Option<u32>,
    /// Field 2.
    pub startindex: Option<u32>,
    /// Field 3.
    pub publishedfiledetails: Vec<crate::steammessages_publishedfile_steamclient::PublishedFileDetails>,
    /// Field 4.
    pub apps: Vec<crate::steammessages_publishedfile_steamclient::c_published_file_get_user_files_response::App>,
}

/// What a `CPublishedFile_GetUserFiles_Response` holds, as mathematical values.
#[verifier::ext_equal]
pub struct SpecCPublishedFile_GetUserFiles_Response {
    pub total: Option<u32>,
    pub startindex: Option<u32>,
    pub publishedfiledetails: Seq<crate::steammessages_publishedfile_steamclient::SpecPublishedFileDetails>,
    pub apps: Seq<crate::steammessages_publishedfile_steamclient::c_published_file_get_user_files_response::SpecApp>,
}

impl View for CPublishedFile_GetUserFiles_Response {
    type V = SpecCPublishedFile_GetUserFiles_Response;

    open spec fn view(&self) -> SpecCPublishedFile_GetUserFiles_Response {
        SpecCPublishedFile_GetUserFiles_Response {
            total: self.total,
            startindex: self.startindex,
            publishedfiledetails: crate::steammessages_publishedfile_steamclient::PublishedFileDetails::view_all(self.publishedfiledetails@),
            apps: crate::steammessages_publishedfile_steamclient::c_published_file_get_user_files_response::App::view_all(self.apps@),
        }
    }
}

impl Default for CPublishedFile_GetUserFiles_Response {
    fn default() -> (r: Self)
        ensures
            r@ == CPublishedFile_GetUserFiles_Response::spec_default(),
    {
        CPublishedFile_GetUserFiles_Response {
            total: None,
            startindex: None,
            publishedfiledetails: Vec::new(),
            apps: Vec::new(),
        }
    }
}

impl CPublishedFile_GetUserFiles_Response {
    pub open spec fn spec_default() -> SpecCPublishedFile_GetUserFiles_Response {
        SpecCPublishedFile_GetUserFiles_Response {
            total: None,
            startindex: None,
            publishedfiledetails: Seq::empty(),
            apps: Seq::empty(),
        }
    }

    /// The records a `CPublishedFile_GetUserFiles_Response` is written as, in field order.
    pub open spec fn spec_fields(v: SpecCPublishedFile_GetUserFiles_Response) -> Seq<SpecField> {
        Seq::<SpecField>::empty()
            + opt_u32(1, v.total)
            + opt_u32(2, v.startindex)
            + rep_bytes(3, crate::steammessages_publishedfile_steamclient::PublishedFileDetails::spec_encode_all(v.publishedfiledetails))
            + rep_bytes(4, crate::steammessages_publishedfile_steamclient::c_published_file_get_user_files_response::App::spec_encode_all(v.apps))
    }

    #[verifier::opaque]
    pub open spec fn spec_encode(v: SpecCPublishedFile_GetUserFiles_Response) -> Seq<u8> {
        fields_bytes(Self::spec_fields(v))
    }

    /// What one record does to the message: a declared number sets or extends its
    /// field, any other number is left alone.
    pub open spec fn spec_apply(v: SpecCPublishedFile_GetUserFiles_Response, f: SpecField) -> Result<SpecCPublishedFile_GetUserFiles_Response, WireError> {
        match f.number {
            1 => match dec_u32(f.value) {
                Ok(x) => Ok(SpecCPublishedFile_GetUserFiles_Response { total: Some(x), ..v }),
                Err(e) => Err(e),
            },
            2 => match dec_u32(f.value) {
                Ok(x) => Ok(SpecCPublishedFile_GetUserFiles_Response { startindex: Some(x), ..v }),
                Err(e) => Err(e),
            },
            3 => match dec_bytes(f.value) {
                Ok(b) => match crate::steammessages_publishedfile_steamclient::PublishedFileDetails::spec_decode(b) {
                    Ok(m) => Ok(SpecCPublishedFile_GetUserFiles_Response { publishedfiledetails: v.publishedfiledetails.push(m), ..v }),
                    Err(e) => Err(e),
                },
                Err(e) => Err(e),
            },
            4 => match dec_bytes(f.value) {
                Ok(b) => match crate::steammessages_publishedfile_steamclient::c_published_file_get_user_files_response::App::spec_decode(b) {
                    Ok(m) => Ok(SpecCPublishedFile_GetUserFiles_Response { apps: v.apps.push(m), ..v }),
                    Err(e) => Err(e),
                },
                Err(e) => Err(e),
            },
            _ => Ok(v),
        }
    }

    pub open spec fn apply_fn() -> spec_fn(SpecCPublishedFile_GetUserFiles_Response, SpecField) -> Result<SpecCPublishedFile_GetUserFiles_Response, WireError> {
        |v: SpecCPublishedFile_GetUserFiles_Response, f: SpecField| Self::spec_apply(v, f)
    }

    /// The message `bytes` makes of `v`: its records applied in order, or the error
    /// that stops the reading.
    pub open spec fn spec_merge(v: SpecCPublishedFile_GetUserFiles_Response, bytes: Seq<u8>) -> Result<SpecCPublishedFile_GetUserFiles_Response, WireError> {
        let (w, stop) = merge_run(v, bytes, Self::apply_fn());
        match stop {
            None => Ok(w),
            Some(e) => Err(e),
        }
    }

    #[verifier::opaque]
    pub open spec fn spec_decode(bytes: Seq<u8>) -> Result<SpecCPublishedFile_GetUserFiles_Response, WireError> {
        Self::spec_merge(Self::spec_default(), bytes)
    }

    /// This message with one record applied to it, or, when the record is refused,
    /// the message unchanged and the reason.
    fn applied(self, f: &Field) -> (r: Result<Self, (Self, WireError)>)
        ensures
            match Self::spec_apply(self@, f@) {
                Ok(v) => r matches Ok(m) && m@ == v,
                Err(e) => r matches Err((m, x)) && x == e && m@ == self@,
            },
    {
        match f.number {
            1 => match read_u32(&f.value) {
                Ok(x) => Ok(Self { total: Some(x), ..self }),
                Err(e) => Err((self, e)),
            },
            2 => match read_u32(&f.value) {
                Ok(x) => Ok(Self { startindex: Some(x), ..self }),
                Err(e) => Err((self, e)),
            },
            3 => match read_payload(&f.value) {
                Ok(b) => match crate::steammessages_publishedfile_steamclient::PublishedFileDetails::decode(b) {
                    Ok(x) => {
                        let mut m = self;
                        let ghost before = m.publishedfiledetails@;
                        m.publishedfiledetails.push(x);
                        assert(crate::steammessages_publishedfile_steamclient::PublishedFileDetails::view_all(m.publishedfiledetails@) =~= crate::steammessages_publishedfile_steamclient::PublishedFileDetails::view_all(before).push(x@));
                        Ok(m)
                    },
                    Err(e) => Err((self, e)),
                },
                Err(e) => Err((self, e)),
            },
            4 => match read_payload(&f.value) {
                Ok(b) => match crate::steammessages_publishedfile_steamclient::c_published_file_get_user_files_response::App::decode(b) {
                    Ok(x) => {
                        let mut m = self;
                        let ghost before = m.apps@;
                        m.apps.push(x);
                        assert(crate::steammessages_publishedfile_steamclient::c_published_file_get_user_files_response::App::view_all(m.apps@) =~= crate::steammessages_publishedfile_steamclient::c_published_file_get_user_files_response::App::view_all(before).push(x@));
                        Ok(m)
                    },
                    Err(e) => Err((self, e)),
                },
                Err(e) => Err((self, e)),
            },
            _ => Ok(self),
        }
    }

    /// Reads the records `bytes` holds into this message, in order. When a record does
    /// not parse or is refused, the reading stops there: the message keeps what the
    /// records before it gave, and the error is returned.
    pub fn merge(&mut self, bytes: &[u8]) -> (r: Result<(), WireError>)
        ensures
            final(self)@ == merge_run(old(self)@, bytes@, Self::apply_fn()).0,
            r == match merge_run(old(self)@, bytes@, Self::apply_fn()).1 {
                None => Ok::<(), WireError>(()),
                Some(e) => Err::<(), WireError>(e),
            },
    {
        let ghost total = merge_run(self@, bytes@, Self::apply_fn());
        let mut cur = Self::default();
        std::mem::swap(&mut cur, self);
        let mut pos: usize = 0;
        assert(bytes@.skip(0) =~= bytes@);
        while pos < bytes.len()
            invariant
                pos <= bytes@.len(),
                total == merge_run(old(self)@, bytes@, Self::apply_fn()),
                merge_run(cur@, bytes@.skip(pos as int), Self::apply_fn()) == total,
            decreases bytes@.len() - pos,
        {
            let ghost s = bytes@.skip(pos as int);
            proof {
                lemma_merge_run_step(cur@, s, Self::apply_fn());
                lemma_parse_field_len(s);
            }
            match read_field(bytes, pos) {
                Ok((f, end)) => {
                    assert(bytes@.skip(end as int) =~= s.skip((end - pos) as int));
                    match cur.applied(&f) {
                        Ok(m) => {
                            cur = m;
                        },
                        Err((m, e)) => {
                            *self = m;
                            return Err(e);
                        },
                    }
                    pos = end;
                },
                Err(e) => {
                    *self = cur;
                    return Err(e);
                },
            }
        }
        assert(bytes@.skip(pos as int) =~= Seq::<u8>::empty());
        proof {
            lemma_merge_run_empty(cur@, Self::apply_fn());
        }
        *self = cur;
        Ok(())
    }

    /// Decodes a message from its encoding.
    pub fn decode(bytes: &[u8]) -> (r: Result<Self, WireError>)
        ensures
            match Self::spec_decode(bytes@) {
                Ok(v) => r matches Ok(m) && m@ == v,
                Err(e) => r matches Err(x) && x == e,
            },
    {
        proof {
            reveal(CPublishedFile_GetUserFiles_Response::spec_decode);
        }
        let mut m = Self::default();
        match m.merge(bytes) {
            Ok(()) => Ok(m),
            Err(e) => Err(e),
        }
    }

    /// The encoding of this message.
    pub fn encode_to_vec(&self) -> (r: Vec<u8>)
        ensures
            r@ == Self::spec_encode(self@),
    {
        let enc_publishedfiledetails = crate::steammessages_publishedfile_steamclient::PublishedFileDetails::encode_all(&self.publishedfiledetails);
        let enc_apps = crate::steammessages_publishedfile_steamclient::c_published_file_get_user_files_response::App::encode_all(&self.apps);
        let ghost v = self@;
        let mut out: Vec<u8> = Vec::new();
        let ghost p0 = Seq::<SpecField>::empty();
        put_opt_u32(&mut out, 1, self.total);
        let ghost p1 = p0 + opt_u32(1, v.total);
        proof {
            lemma_fields_bytes_concat(p0, opt_u32(1, v.total));
        }
        put_opt_u32(&mut out, 2, self.startindex);
        let ghost p2 = p1 + opt_u32(2, v.startindex);
        proof {
            lemma_fields_bytes_concat(p1, opt_u32(2, v.startindex));
        }
        put_rep_bytes(&mut out, 3, &enc_publishedfiledetails);
        let ghost p3 = p2 + rep_bytes(3, crate::steammessages_publishedfile_steamclient::PublishedFileDetails::spec_encode_all(v.publishedfiledetails));
        proof {
            lemma_fields_bytes_concat(p2, rep_bytes(3, crate::steammessages_publishedfile_steamclient::PublishedFileDetails::spec_encode_all(v.publishedfiledetails)));
        }
        put_rep_bytes(&mut out, 4, &enc_apps);
        let ghost p4 = p3 + rep_bytes(4, crate::steammessages_publishedfile_steamclient::c_published_file_get_user_files_response::App::spec_encode_all(v.apps));
        proof {
            lemma_fields_bytes_concat(p3, rep_bytes(4, crate::steammessages_publishedfile_steamclient::c_published_file_get_user_files_response::App::spec_encode_all(v.apps)));
        }
        proof {
            reveal(CPublishedFile_GetUserFiles_Response::spec_encode);
        }
        assert(p4 == Self::spec_fields(v));
        out
    }

    /// Appends the encoding of this message to `out`.
    pub fn encode_raw(&self, out: &mut Vec<u8>)
        ensures
            final(out)@ == old(out)@ + Self::spec_encode(self@),
    {
        let mut b = self.encode_to_vec();
        out.append(&mut b);
    }

    /// The first `k` fields of `v`, the others as a fresh message has them.
    #[verifier::opaque]
    pub open spec fn spec_prefix(v: SpecCPublishedFile_GetUserFiles_Response, k: int) -> SpecCPublishedFile_GetUserFiles_Response {
        SpecCPublishedFile_GetUserFiles_Response {
            total: if 1 <= k { v.total } else { None },
            startindex: if 2 <= k { v.startindex } else { None },
            publishedfiledetails: if 3 <= k { v.publishedfiledetails } else { Seq::empty() },
            apps: if 4 <= k { v.apps } else { Seq::empty() },
        }
    }

    /// Reading field 1 back, after the fields before it.
    proof fn lemma_field_total(v: SpecCPublishedFile_GetUserFiles_Response)
        ensures
            fold_fields(Self::spec_prefix(v, 0), opt_u32(1, v.total), Self::apply_fn())
                == Ok::<SpecCPublishedFile_GetUserFiles_Response, WireError>(Self::spec_prefix(v, 1)),
    {
        reveal(CPublishedFile_GetUserFiles_Response::spec_prefix);
        reveal(opt_u32);
        let apply = Self::apply_fn();
        let s = Self::spec_prefix(v, 0);
        lemma_fold_opt(s, 1, match v.total { Some(x) => Some(enc_u32(x)), None => None }, apply);
        if let Some(x) = v.total {
            lemma_u32_roundtrip(x);
        }
        assert(SpecCPublishedFile_GetUserFiles_Response { total: v.total, ..s } == Self::spec_prefix(v, 1));
    }

    /// Reading field 2 back, after the fields before it.
    proof fn lemma_field_startindex(v: SpecCPublishedFile_GetUserFiles_Response)
        ensures
            fold_fields(Self::spec_prefix(v, 1), opt_u32(2, v.startindex), Self::apply_fn())
                == Ok::<SpecCPublishedFile_GetUserFiles_Response, WireError>(Self::spec_prefix(v, 2)),
    {
        reveal(CPublishedFile_GetUserFiles_Response::spec_prefix);
        reveal(opt_u32);
        let apply = Self::apply_fn();
        let s = Self::spec_prefix(v, 1);
        lemma_fold_opt(s, 2, match v.startindex { Some(x) => Some(enc_u32(x)), None => None }, apply);
        if let Some(x) = v.startindex {
            lemma_u32_roundtrip(x);
        }
        assert(SpecCPublishedFile_GetUserFiles_Response { startindex: v.startindex, ..s } == Self::spec_prefix(v, 2));
    }

    /// Reading field 3 back, after the fields before it.
    proof fn lemma_field_publishedfiledetails(v: SpecCPublishedFile_GetUserFiles_Response)
        requires
            fields_wf(rep_bytes(3, crate::steammessages_publishedfile_steamclient::PublishedFileDetails::spec_encode_all(v.publishedfiledetails))),
        ensures
            fold_fields(Self::spec_prefix(v, 2), rep_bytes(3, crate::steammessages_publishedfile_steamclient::PublishedFileDetails::spec_encode_all(v.publishedfiledetails)), Self::apply_fn())
                == Ok::<SpecCPublishedFile_GetUserFiles_Response, WireError>(Self::spec_prefix(v, 3)),
    {
        reveal(CPublishedFile_GetUserFiles_Response::spec_prefix);
        reveal(rep_bytes);
        reveal(fields_wf);
        let apply = Self::apply_fn();
        let s = Self::spec_prefix(v, 2);
        let l = rep_bytes(3, crate::steammessages_publishedfile_steamclient::PublishedFileDetails::spec_encode_all(v.publishedfiledetails));
        let xs = v.publishedfiledetails;
        let st = Seq::new((xs.len() + 1) as nat, |j: int| SpecCPublishedFile_GetUserFiles_Response { publishedfiledetails: xs.take(j), ..s });
        assert forall|j: int| 0 <= j < l.len() implies #[trigger] apply(st[j], l[j]) == Ok::<SpecCPublishedFile_GetUserFiles_Response, WireError>(st[j + 1]) by {
            assert(field_wf(l[j]));
            crate::steammessages_publishedfile_steamclient::PublishedFileDetails::lemma_decode_encode(xs[j]);
            assert(xs.take(j).push(xs[j]) =~= xs.take(j + 1));
        }
        lemma_fold_chain(l, st, apply);
        assert(xs.take(0) =~= Seq::<crate::steammessages_publishedfile_steamclient::SpecPublishedFileDetails>::empty());
        assert(xs.take(xs.len() as int) =~= xs);
        assert(st[0] == s);
        assert(st[xs.len() as int] == Self::spec_prefix(v, 3));
    }

    /// Reading field 4 back, after the fields before it.
    proof fn lemma_field_apps(v: SpecCPublishedFile_GetUserFiles_Response)
        requires
            fields_wf(rep_bytes(4, crate::steammessages_publishedfile_steamclient::c_published_file_get_user_files_response::App::spec_encode_all(v.apps))),
        ensures
            fold_fields(Self::spec_prefix(v, 3), rep_bytes(4, crate::steammessages_publishedfile_steamclient::c_published_file_get_user_files_response::App::spec_encode_all(v.apps)), Self::apply_fn())
                == Ok::<SpecCPublishedFile_GetUserFiles_Response, WireError>(Self::spec_prefix(v, 4)),
    {
        reveal(CPublishedFile_GetUserFiles_Response::spec_prefix);
        reveal(rep_bytes);
        reveal(fields_wf);
        let apply = Self::apply_fn();
        let s = Self::spec_prefix(v, 3);
        let l = rep_bytes(4, crate::steammessages_publishedfile_steamclient::c_published_file_get_user_files_response::App::spec_encode_all(v.apps));
        let xs = v.apps;
        let st = Seq::new((xs.len() + 1) as nat, |j: int| SpecCPublishedFile_GetUserFiles_Response { apps: xs.take(j), ..s });
        assert forall|j: int| 0 <= j < l.len() implies #[trigger] apply(st[j], l[j]) == Ok::<SpecCPublishedFile_GetUserFiles_Response, WireError>(st[j + 1]) by {
            assert(field_wf(l[j]));
            crate::steammessages_publishedfile_steamclient::c_published_file_get_user_files_response::App::lemma_decode_encode(xs[j]);
            assert(xs.take(j).push(xs[j]) =~= xs.take(j + 1));
        }
        lemma_fold_chain(l, st, apply);
        assert(xs.take(0) =~= Seq::<crate::steammessages_publishedfile_steamclient::c_published_file_get_user_files_response::SpecApp>::empty());
        assert(xs.take(xs.len() as int) =~= xs);
        assert(st[0] == s);
        assert(st[xs.len() as int] == Self::spec_prefix(v, 4));
    }

    /// Whether this message declares field number `n`.
    pub open spec fn declares(n: u32) -> bool {
        n == 1 || n == 2 || n == 3 || n == 4
    }

    /// A record with a number this message does not declare is passed over: well-formed
    /// bytes decode to the same message with such a record after them as without it.
    pub proof fn lemma_unknown_field(bytes: Seq<u8>, f: SpecField)
        requires
            parse_fields(bytes) is Ok,
            field_wf(f),
            !Self::declares(f.number),
        ensures
            Self::spec_decode(bytes + field_bytes(f)) == Self::spec_decode(bytes),
    {
        reveal(CPublishedFile_GetUserFiles_Response::spec_decode);
        lemma_parse_fields_append(bytes, f);
        let fs = parse_fields(bytes).unwrap();
        let apply = Self::apply_fn();
        lemma_fold_concat(Self::spec_default(), fs, seq![f], apply);
        assert(fs.push(f) =~= fs + seq![f]);
        if let Ok(w) = fold_fields(Self::spec_default(), fs, apply) {
            lemma_fold_single(w, f, apply);
        }
        lemma_merge_run_fold(Self::spec_default(), bytes, apply);
        lemma_merge_run_fold(Self::spec_default(), bytes + field_bytes(f), apply);
    }

    /// Decoding the encoding of a message gives the message back.
    pub proof fn lemma_decode_encode(v: SpecCPublishedFile_GetUserFiles_Response)
        requires
            Self::spec_encode(v).len() <= u64::MAX,
        ensures
            Self::spec_decode(Self::spec_encode(v)) == Ok::<SpecCPublishedFile_GetUserFiles_Response, WireError>(v),
    {
        let apply = Self::apply_fn();
        let d = Self::spec_default();
        let p0 = Seq::<SpecField>::empty();
        let l1 = opt_u32(1, v.total);
        let p1 = p0 + l1;
        let l2 = opt_u32(2, v.startindex);
        let p2 = p1 + l2;
        let l3 = rep_bytes(3, crate::steammessages_publishedfile_steamclient::PublishedFileDetails::spec_encode_all(v.publishedfiledetails));
        let p3 = p2 + l3;
        let l4 = rep_bytes(4, crate::steammessages_publishedfile_steamclient::c_published_file_get_user_files_response::App::spec_encode_all(v.apps));
        let p4 = p3 + l4;
        assert(parse_fields(Self::spec_encode(v)) == Ok::<Seq<SpecField>, WireError>(p4) && fields_wf(l3) && fields_wf(l4)) by {
            reveal(CPublishedFile_GetUserFiles_Response::spec_encode);
            assert(numbers_ok(p0) && fields_wf(p0)) by {
                reveal(numbers_ok);
                reveal(fields_wf);
            }
            lemma_opt_u32_numbered(1, v.total);
            lemma_fields_wf_concat(p0, l1);
            lemma_opt_u32_numbered(2, v.startindex);
            lemma_fields_wf_concat(p1, l2);
            lemma_rep_bytes_numbered(3, crate::steammessages_publishedfile_steamclient::PublishedFileDetails::spec_encode_all(v.publishedfiledetails));
            lemma_fields_wf_concat(p2, l3);
            lemma_rep_bytes_numbered(4, crate::steammessages_publishedfile_steamclient::c_published_file_get_user_files_response::App::spec_encode_all(v.apps));
            lemma_fields_wf_concat(p3, l4);
            assert(p4 == Self::spec_fields(v));
            lemma_fields_wf_from_len(p4);
            lemma_fields_roundtrip(p4);
        }
        assert(Self::spec_prefix(v, 0) == d) by {
            reveal(CPublishedFile_GetUserFiles_Response::spec_prefix);
        }
        lemma_fold_empty(d, apply);
        lemma_fold_concat(d, p0, l1, apply);
        Self::lemma_field_total(v);
        lemma_fold_concat(d, p1, l2, apply);
        Self::lemma_field_startindex(v);
        lemma_fold_concat(d, p2, l3, apply);
        Self::lemma_field_publishedfiledetails(v);
        lemma_fold_concat(d, p3, l4, apply);
        Self::lemma_field_apps(v);
        assert(Self::spec_prefix(v, 4) == v) by {
            reveal(CPublishedFile_GetUserFiles_Response::spec_prefix);
        }
        lemma_merge_run_fold(d, Self::spec_encode(v), apply);
        assert(Self::spec_decode(Self::spec_encode(v)) == Ok::<SpecCPublishedFile_GetUserFiles_Response, WireError>(v)) by {
            reveal(CPublishedFile_GetUserFiles_Response::spec_decode);
        }
    }
}

/// `CPublishedFile_AreFilesInSubscriptionList_Request`, as Valve's schema declares it.
#[derive(Debug, Clone, PartialEq)]
pub struct CPublishedFile_AreFilesInSubscriptionList_Request {
    /// Field 1.
    pub appid: Option<u32>,
    /// Field 2.
    pub publishedfileids: Vec<u64>,
    /// Field 3.
    pub listtype: Option<u32>,
    /// Field 4.
    pub filetype: Option<u32>,
    /// Field 5.
    pub workshopfiletype: Option<u32>,
}

/// What a `CPublishedFile_AreFilesInSubscriptionList_Request` holds, as mathematical values.
#[verifier::ext_equal]
pub struct SpecCPublishedFile_AreFilesInSubscriptionList_Request {
    pub appid: Option<u32>,
    pub publishedfileids: Seq<u64>,
    pub listtype: Option<u32>,
    pub filetype: Option<u32>,
    pub workshopfiletype: Option<u32>,
}

impl View for CPublishedFile_AreFilesInSubscriptionList_Request {
    type V = SpecCPublishedFile_AreFilesInSubscriptionList_Request;

    open spec fn view(&self) -> SpecCPublishedFile_AreFilesInSubscriptionList_Request {
        SpecCPublishedFile_AreFilesInSubscriptionList_Request {
            appid: self.appid,
            publishedfileids: self.publishedfileids@,
            listtype: self.listtype,
            filetype: self.filetype,
            workshopfiletype: self.workshopfiletype,
        }
    }
}

impl Default for CPublishedFile_AreFilesInSubscriptionList_Request {
    fn default() -> (r: Self)
        ensures
            r@ == CPublishedFile_AreFilesInSubscriptionList_Request::spec_default(),
    {
        CPublishedFile_AreFilesInSubscriptionList_Request {
            appid: None,
            publishedfileids: Vec::new(),
            listtype: None,
            filetype: None,
            workshopfiletype: None,
        }
    }
}

impl CPublishedFile_AreFilesInSubscriptionList_Request {
    pub open spec fn spec_default() -> SpecCPublishedFile_AreFilesInSubscriptionList_Request {
        SpecCPublishedFile_AreFilesInSubscriptionList_Request {
            appid: None,
            publishedfileids: Seq::empty(),
            listtype: None,
            filetype: None,
            workshopfiletype: None,
        }
    }

    /// The records a `CPublishedFile_AreFilesInSubscriptionList_Request` is written as, in field order.
    pub open spec fn spec_fields(v: SpecCPublishedFile_AreFilesInSubscriptionList_Request) -> Seq<SpecField> {
        Seq::<SpecField>::empty()
            + opt_u32(1, v.appid)
            + rep_fixed64(2, v.publishedfileids)
            + opt_u32(3, v.listtype)
            + opt_u32(4, v.filetype)
            + opt_u32(5, v.workshopfiletype)
    }

    #[verifier::opaque]
    pub open spec fn spec_encode(v: SpecCPublishedFile_AreFilesInSubscriptionList_Request) -> Seq<u8> {
        fields_bytes(Self::spec_fields(v))
    }

    /// What one record does to the message: a declared number sets or extends its
    /// field, any other number is left alone.
    pub open spec fn spec_apply(v: SpecCPublishedFile_AreFilesInSubscriptionList_Request, f: SpecField) -> Result<SpecCPublishedFile_AreFilesInSubscriptionList_Request, WireError> {
        match f.number {
            1 => match dec_u32(f.value) {
                Ok(x) => Ok(SpecCPublishedFile_AreFilesInSubscriptionList_Request { appid: Some(x), ..v }),
                Err(e) => Err(e),
            },
            2 => match dec_packed_fixed64(f.value) {
                Ok(xs) => Ok(SpecCPublishedFile_AreFilesInSubscriptionList_Request { publishedfileids: v.publishedfileids + xs, ..v }),
                Err(e) => Err(e),
            },
            3 => match dec_u32(f.value) {
                Ok(x) => Ok(SpecCPublishedFile_AreFilesInSubscriptionList_Request { listtype: Some(x), ..v }),
                Err(e) => Err(e),
            },
            4 => match dec_u32(f.value) {
                Ok(x) => Ok(SpecCPublishedFile_AreFilesInSubscriptionList_Request { filetype: Some(x), ..v }),
                Err(e) => Err(e),
            },
            5 => match dec_u32(f.value) {
                Ok(x) => Ok(SpecCPublishedFile_AreFilesInSubscriptionList_Request { workshopfiletype: Some(x), ..v }),
                Err(e) => Err(e),
            },
            _ => Ok(v),
        }
    }

    pub open spec fn apply_fn() -> spec_fn(SpecCPublishedFile_AreFilesInSubscriptionList_Request, SpecField) -> Result<SpecCPublishedFile_AreFilesInSubscriptionList_Request, WireError> {
        |v: SpecCPublishedFile_AreFilesInSubscriptionList_Request, f: SpecField| Self::spec_apply(v, f)
    }

    /// The message `bytes` makes of `v`: its records applied in order, or the error
    /// that stops the reading.
    pub open spec fn spec_merge(v: SpecCPublishedFile_AreFilesInSubscriptionList_Request, bytes: Seq<u8>) -> Result<SpecCPublishedFile_AreFilesInSubscriptionList_Request, WireError> {
        let (w, stop) = merge_run(v, bytes, Self::apply_fn());
        match stop {
            None => Ok(w),
            Some(e) => Err(e),
        }
    }

    #[verifier::opaque]
    pub open spec fn spec_decode(bytes: Seq<u8>) -> Result<SpecCPublishedFile_AreFilesInSubscriptionList_Request, WireError> {
        Self::spec_merge(Self::spec_default(), bytes)
    }

    /// This message with one record applied to it, or, when the record is refused,
    /// the message unchanged and the reason.
    fn applied(self, f: &Field) -> (r: Result<Self, (Self, WireError)>)
        ensures
            match Self::spec_apply(self@, f@) {
                Ok(v) => r matches Ok(m) && m@ == v,
                Err(e) => r matches Err((m, x)) && x == e && m@ == self@,
            },
    {
        match f.number {
            1 => match read_u32(&f.value) {
                Ok(x) => Ok(Self { appid: Some(x), ..self }),
                Err(e) => Err((self, e)),
            },
            2 => match read_packed_fixed64(&f.value) {
                Ok(xs) => {
                    let mut m = self;
                    let mut xs = xs;
                    m.publishedfileids.append(&mut xs);
                    Ok(m)
                },
                Err(e) => Err((self, e)),
            },
            3 => match read_u32(&f.value) {
                Ok(x) => Ok(Self { listtype: Some(x), ..self }),
                Err(e) => Err((self, e)),
            },
            4 => match read_u32(&f.value) {
                Ok(x) => Ok(Self { filetype: Some(x), ..self }),
                Err(e) => Err((self, e)),
            },
            5 => match read_u32(&f.value) {
                Ok(x) => Ok(Self { workshopfiletype: Some(x), ..self }),
                Err(e) => Err((self, e)),
            },
            _ => Ok(self),
        }
    }

    /// Reads the records `bytes` holds into this message, in order. When a record does
    /// not parse or is refused, the reading stops there: the message keeps what the
    /// records before it gave, and the error is returned.
    pub fn merge(&mut self, bytes: &[u8]) -> (r: Result<(), WireError>)
        ensures
            final(self)@ == merge_run(old(self)@, bytes@, Self::apply_fn()).0,
            r == match merge_run(old(self)@, bytes@, Self::apply_fn()).1 {
                None => Ok::<(), WireError>(()),
                Some(e) => Err::<(), WireError>(e),
            },
    {
        let ghost total = merge_run(self@, bytes@, Self::apply_fn());
        let mut cur = Self::default();
        std::mem::swap(&mut cur, self);
        let mut pos: usize = 0;
        assert(bytes@.skip(0) =~= bytes@);
        while pos < bytes.len()
            invariant
                pos <= bytes@.len(),
                total == merge_run(old(self)@, bytes@, Self::apply_fn()),
                merge_run(cur@, bytes@.skip(pos as int), Self::apply_fn()) == total,
            decreases bytes@.len() - pos,
        {
            let ghost s = bytes@.skip(pos as int);
            proof {
                lemma_merge_run_step(cur@, s, Self::apply_fn());
                lemma_parse_field_len(s);
            }
            match read_field(bytes, pos) {
                Ok((f, end)) => {
                    assert(bytes@.skip(end as int) =~= s.skip((end - pos) as int));
                    match cur.applied(&f) {
                        Ok(m) => {
                            cur = m;
                        },
                        Err((m, e)) => {
                            *self = m;
                            return Err(e);
                        },
                    }
                    pos = end;
                },
                Err(e) => {
                    *self = cur;
                    return Err(e);
                },
            }
        }
        assert(bytes@.skip(pos as int) =~= Seq::<u8>::empty());
        proof {
            lemma_merge_run_empty(cur@, Self::apply_fn());
        }
        *self = cur;
        Ok(())
    }

    /// Decodes a message from its encoding.
    pub fn decode(bytes: &[u8]) -> (r: Result<Self, WireError>)
        ensures
            match Self::spec_decode(bytes@) {
                Ok(v) => r matches Ok(m) && m@ == v,
                Err(e) => r matches Err(x) && x == e,
            },
    {
        proof {
            reveal(CPublishedFile_AreFilesInSubscriptionList_Request::spec_decode);
        }
        let mut m = Self::default();
        match m.merge(bytes) {
            Ok(()) => Ok(m),
            Err(e) => Err(e),
        }
    }

    /// The encoding of this message.
    pub fn encode_to_vec(&self) -> (r: Vec<u8>)
        ensures
            r@ == Self::spec_encode(self@),
    {
        let ghost v = self@;
        let mut out: Vec<u8> = Vec::new();
        let ghost p0 = Seq::<SpecField>::empty();
        put_opt_u32(&mut out, 1, self.appid);
        let ghost p1 = p0 + opt_u32(1, v.appid);
        proof {
            lemma_fields_bytes_concat(p0, opt_u32(1, v.appid));
        }
        put_rep_fixed64(&mut out, 2, &self.publishedfileids);
        let ghost p2 = p1 + rep_fixed64(2, v.publishedfileids);
        proof {
            lemma_fields_bytes_concat(p1, rep_fixed64(2, v.publishedfileids));
        }
        put_opt_u32(&mut out, 3, self.listtype);
        let ghost p3 = p2 + opt_u32(3, v.listtype);
        proof {
            lemma_fields_bytes_concat(p2, opt_u32(3, v.listtype));
        }
        put_opt_u32(&mut out, 4, self.filetype);
        let ghost p4 = p3 + opt_u32(4, v.filetype);
        proof {
            lemma_fields_bytes_concat(p3, opt_u32(4, v.filetype));
        }
        put_opt_u32(&mut out, 5, self.workshopfiletype);
        let ghost p5 = p4 + opt_u32(5, v.workshopfiletype);
        proof {
            lemma_fields_bytes_concat(p4, opt_u32(5, v.workshopfiletype));
        }
        proof {
            reveal(CPublishedFile_AreFilesInSubscriptionList_Request::spec_encode);
        }
        assert(p5 == Self::spec_fields(v));
        out
    }

    /// Appends the encoding of this message to `out`.
    pub fn encode_raw(&self, out: &mut Vec<u8>)
        ensures
            final(out)@ == old(out)@ + Self::spec_encode(self@),
    {
        let mut b = self.encode_to_vec();
        out.append(&mut b);
    }

    /// The first `k` fields of `v`, the others as a fresh message has them.
    #[verifier::opaque]
    pub open spec fn spec_prefix(v: SpecCPublishedFile_AreFilesInSubscriptionList_Request, k: int) -> SpecCPublishedFile_AreFilesInSubscriptionList_Request {
        SpecCPublishedFile_AreFilesInSubscriptionList_Request {
            appid: if 1 <= k { v.appid } else { None },
            publishedfileids: if 2 <= k { v.publishedfileids } else { Seq::empty() },
            listtype: if 3 <= k { v.listtype } else { None },
            filetype: if 4 <= k { v.filetype } else { None },
            workshopfiletype: if 5 <= k { v.workshopfiletype } else { None },
        }
    }

    /// Reading field 1 back, after the fields before it.
    proof fn lemma_field_appid(v: SpecCPublishedFile_AreFilesInSubscriptionList_Request)
        ensures
            fold_fields(Self::spec_prefix(v, 0), opt_u32(1, v.appid), Self::apply_fn())
                == Ok::<SpecCPublishedFile_AreFilesInSubscriptionList_Request, WireError>(Self::spec_prefix(v, 1)),
    {
        reveal(CPublishedFile_AreFilesInSubscriptionList_Request::spec_prefix);
        reveal(opt_u32);
        let apply = Self::apply_fn();
        let s = Self::spec_prefix(v, 0);
        lemma_fold_opt(s, 1, match v.appid { Some(x) => Some(enc_u32(x)), None => None }, apply);
        if let Some(x) = v.appid {
            lemma_u32_roundtrip(x);
        }
        assert(SpecCPublishedFile_AreFilesInSubscriptionList_Request { appid: v.appid, ..s } == Self::spec_prefix(v, 1));
    }

    /// Reading field 2 back, after the fields before it.
    proof fn lemma_field_publishedfileids(v: SpecCPublishedFile_AreFilesInSubscriptionList_Request)
        ensures
            fold_fields(Self::spec_prefix(v, 1), rep_fixed64(2, v.publishedfileids), Self::apply_fn())
                == Ok::<SpecCPublishedFile_AreFilesInSubscriptionList_Request, WireError>(Self::spec_prefix(v, 2)),
    {
        reveal(CPublishedFile_AreFilesInSubscriptionList_Request::spec_prefix);
        reveal(rep_fixed64);
        let apply = Self::apply_fn();
        let s = Self::spec_prefix(v, 1);
        let l = rep_fixed64(2, v.publishedfileids);
        let xs = v.publishedfileids;
        let st = Seq::new((xs.len() + 1) as nat, |j: int| SpecCPublishedFile_AreFilesInSubscriptionList_Request { publishedfileids: xs.take(j), ..s });
        assert forall|j: int| 0 <= j < l.len() implies #[trigger] apply(st[j], l[j]) == Ok::<SpecCPublishedFile_AreFilesInSubscriptionList_Request, WireError>(st[j + 1]) by {
            lemma_u64_roundtrip(xs[j]);
            assert(xs.take(j) + seq![xs[j]] =~= xs.take(j + 1));
        }
        lemma_fold_chain(l, st, apply);
        assert(xs.take(0) =~= Seq::<u64>::empty());
        assert(xs.take(xs.len() as int) =~= xs);
        assert(st[0] == s);
        assert(st[xs.len() as int] == Self::spec_prefix(v, 2));
    }

    /// Reading field 3 back, after the fields before it.
    proof fn lemma_field_listtype(v: SpecCPublishedFile_AreFilesInSubscriptionList_Request)
        ensures
            fold_fields(Self::spec_prefix(v, 2), opt_u32(3, v.listtype), Self::apply_fn())
                == Ok::<SpecCPublishedFile_AreFilesInSubscriptionList_Request, WireError>(Self::spec_prefix(v, 3)),
    {
        reveal(CPublishedFile_AreFilesInSubscriptionList_Request::spec_prefix);
        reveal(opt_u32);
        let apply = Self::apply_fn();
        let s = Self::spec_prefix(v, 2);
        lemma_fold_opt(s, 3, match v.listtype { Some(x) => Some(enc_u32(x)), None => None }, apply);
        if let Some(x) = v.listtype {
            lemma_u32_roundtrip(x);
        }
        assert(SpecCPublishedFile_AreFilesInSubscriptionList_Request { listtype: v.listtype, ..s } == Self::spec_prefix(v, 3));
    }

    /// Reading field 4 back, after the fields before it.
    proof fn lemma_field_filetype(v: SpecCPublishedFile_AreFilesInSubscriptionList_Request)
        ensures
            fold_fields(Self::spec_prefix(v, 3), opt_u32(4, v.filetype), Self::apply_fn())
                == Ok::<SpecCPublishedFile_AreFilesInSubscriptionList_Request, WireError>(Self::spec_prefix(v, 4)),
    {
        reveal(CPublishedFile_AreFilesInSubscriptionList_Request::spec_prefix);
        reveal(opt_u32);
        let apply = Self::apply_fn();
        let s = Self::spec_prefix(v, 3);
        lemma_fold_opt(s, 4, match v.filetype { Some(x) => Some(enc_u32(x)), None => None }, apply);
        if let Some(x) = v.filetype {
            lemma_u32_roundtrip(x);
        }
        assert(SpecCPublishedFile_AreFilesInSubscriptionList_Request { filetype: v.filetype, ..s } == Self::spec_prefix(v, 4));
    }

    /// Reading field 5 back, after the fields before it.
    proof fn lemma_field_workshopfiletype(v: SpecCPublishedFile_AreFilesInSubscriptionList_Request)
        ensures
            fold_fields(Self::spec_prefix(v, 4), opt_u32(5, v.workshopfiletype), Self::apply_fn())
                == Ok::<SpecCPublishedFile_AreFilesInSubscriptionList_Request, WireError>(Self::spec_prefix(v, 5)),
    {
        reveal(CPublishedFile_AreFilesInSubscriptionList_Request::spec_prefix);
        reveal(opt_u32);
        let apply = Self::apply_fn();
        let s = Self::spec_prefix(v, 4);
        lemma_fold_opt(s, 5, match v.workshopfiletype { Some(x) => Some(enc_u32(x)), None => None }, apply);
        if let Some(x) = v.workshopfiletype {
            lemma_u32_roundtrip(x);
        }
        assert(SpecCPublishedFile_AreFilesInSubscriptionList_Request { workshopfiletype: v.workshopfiletype, ..s } == Self::spec_prefix(v, 5));
    }

    /// Whether this message declares field number `n`.
    pub open spec fn declares(n: u32) -> bool {
        n == 1 || n == 2 || n == 3 || n == 4 || n == 5
    }

    /// A record with a number this message does not declare is passed over: well-formed
    /// bytes decode to the same message with such a record after them as without it.
    pub proof fn lemma_unknown_field(bytes: Seq<u8>, f: SpecField)
        requires
            parse_fields(bytes) is Ok,
            field_wf(f),
            !Self::declares(f.number),
        ensures
            Self::spec_decode(bytes + field_bytes(f)) == Self::spec_decode(bytes),
    {
        reveal(CPublishedFile_AreFilesInSubscriptionList_Request::spec_decode);
        lemma_parse_fields_append(bytes, f);
        let fs = parse_fields(bytes).unwrap();
        let apply = Self::apply_fn();
        lemma_fold_concat(Self::spec_default(), fs, seq![f], apply);
        assert(fs.push(f) =~= fs + seq![f]);
        if let Ok(w) = fold_fields(Self::spec_default(), fs, apply) {
            lemma_fold_single(w, f, apply);
        }
        lemma_merge_run_fold(Self::spec_default(), bytes, apply);
        lemma_merge_run_fold(Self::spec_default(), bytes + field_bytes(f), apply);
    }

    /// Decoding the encoding of a message gives the message back.
    pub proof fn lemma_decode_encode(v: SpecCPublishedFile_AreFilesInSubscriptionList_Request)
        requires
            Self::spec_encode(v).len() <= u64::MAX,
        ensures
            Self::spec_decode(Self::spec_encode(v)) == Ok::<SpecCPublishedFile_AreFilesInSubscriptionList_Request, WireError>(v),
    {
        let apply = Self::apply_fn();
        let d = Self::spec_default();
        let p0 = Seq::<SpecField>::empty();
        let l1 = opt_u32(1, v.appid);
        let p1 = p0 + l1;
        let l2 = rep_fixed64(2, v.publishedfileids);
        let p2 = p1 + l2;
        let l3 = opt_u32(3, v.listtype);
        let p3 = p2 + l3;
        let l4 = opt_u32(4, v.filetype);
        let p4 = p3 + l4;
        let l5 = opt_u32(5, v.workshopfiletype);
        let p5 = p4 + l5;
        assert(parse_fields(Self::spec_encode(v)) == Ok::<Seq<SpecField>, WireError>(p5)) by {
            reveal(CPublishedFile_AreFilesInSubscriptionList_Request::spec_encode);
            assert(numbers_ok(p0) && fields_wf(p0)) by {
                reveal(numbers_ok);
                reveal(fields_wf);
            }
            lemma_opt_u32_numbered(1, v.appid);
            lemma_fields_wf_concat(p0, l1);
            lemma_rep_fixed64_numbered(2, v.publishedfileids);
            lemma_fields_wf_concat(p1, l2);
            lemma_opt_u32_numbered(3, v.listtype);
            lemma_fields_wf_concat(p2, l3);
            lemma_opt_u32_numbered(4, v.filetype);
            lemma_fields_wf_concat(p3, l4);
            lemma_opt_u32_numbered(5, v.workshopfiletype);
            lemma_fields_wf_concat(p4, l5);
            assert(p5 == Self::spec_fields(v));
            lemma_fields_wf_from_len(p5);
            lemma_fields_roundtrip(p5);
        }
        assert(Self::spec_prefix(v, 0) == d) by {
            reveal(CPublishedFile_AreFilesInSubscriptionList_Request::spec_prefix);
        }
        lemma_fold_empty(d, apply);
        lemma_fold_concat(d, p0, l1, apply);
        Self::lemma_field_appid(v);
        lemma_fold_concat(d, p1, l2, apply);
        Self::lemma_field_publishedfileids(v);
        lemma_fold_concat(d, p2, l3, apply);
        Self::lemma_field_listtype(v);
        lemma_fold_concat(d, p3, l4, apply);
        Self::lemma_field_filetype(v);
        lemma_fold_concat(d, p4, l5, apply);
        Self::lemma_field_workshopfiletype(v);
        assert(Self::spec_prefix(v, 5) == v) by {
            reveal(CPublishedFile_AreFilesInSubscriptionList_Request::spec_prefix);
        }
        lemma_merge_run_fold(d, Self::spec_encode(v), apply);
        assert(Self::spec_decode(Self::spec_encode(v)) == Ok::<SpecCPublishedFile_AreFilesInSubscriptionList_Request, WireError>(v)) by {
            reveal(CPublishedFile_AreFilesInSubscriptionList_Request::spec_decode);
        }
    }
}

/// `CPublishedFile_AreFilesInSubscriptionList_Response`, as Valve's schema declares it.
#[derive(Debug, Clone, PartialEq)]
pub struct CPublishedFile_AreFilesInSubscriptionList_Response {
    /// Field 1.
    pub files: Vec<crate::steammessages_publishedfile_steamclient::c_published_file_are_files_in_subscription_list_response::InList>,
}

/// What a `CPublishedFile_AreFilesInSubscriptionList_Response` holds, as mathematical values.
#[verifier::ext_equal]
pub struct SpecCPublishedFile_AreFilesInSubscriptionList_Response {
    pub files: Seq<crate::steammessages_publishedfile_steamclient::c_published_file_are_files_in_subscription_list_response::SpecInList>,
}

impl View for CPublishedFile_AreFilesInSubscriptionList_Response {
    type V = SpecCPublishedFile_AreFilesInSubscriptionList_Response;

    open spec fn view(&self) -> SpecCPublishedFile_AreFilesInSubscriptionList_Response {
        SpecCPublishedFile_AreFilesInSubscriptionList_Response {
            files: crate::steammessages_publishedfile_steamclient::c_published_file_are_files_in_subscription_list_response::InList::view_all(self.files@),
        }
    }
}

impl Default for CPublishedFile_AreFilesInSubscriptionList_Response {
    fn default() -> (r: Self)
        ensures
            r@ == CPublishedFile_AreFilesInSubscriptionList_Response::spec_default(),
    {
        CPublishedFile_AreFilesInSubscriptionList_Response {
            files: Vec::new(),
        }
    }
}

impl CPublishedFile_AreFilesInSubscriptionList_Response {
    pub open spec fn spec_default() -> SpecCPublishedFile_AreFilesInSubscriptionList_Response {
        SpecCPublishedFile_AreFilesInSubscriptionList_Response {
            files: Seq::empty(),
        }
    }

    /// The records a `CPublishedFile_AreFilesInSubscriptionList_Response` is written as, in field order.
    pub open spec fn spec_fields(v: SpecCPublishedFile_AreFilesInSubscriptionList_Response) -> Seq<SpecField> {
        Seq::<SpecField>::empty()
            + rep_bytes(1, crate::steammessages_publishedfile_steamclient::c_published_file_are_files_in_subscription_list_response::InList::spec_encode_all(v.files))
    }

    #[verifier::opaque]
    pub open spec fn spec_encode(v: SpecCPublishedFile_AreFilesInSubscriptionList_Response) -> Seq<u8> {
        fields_bytes(Self::spec_fields(v))
    }

    /// What one record does to the message: a declared number sets or extends its
    /// field, any other number is left alone.
    pub open spec fn spec_apply(v: SpecCPublishedFile_AreFilesInSubscriptionList_Response, f: SpecField) -> Result<SpecCPublishedFile_AreFilesInSubscriptionList_Response, WireError> {
        match f.number {
            1 => match dec_bytes(f.value) {
                Ok(b) => match crate::steammessages_publishedfile_steamclient::c_published_file_are_files_in_subscription_list_response::InList::spec_decode(b) {
                    Ok(m) => Ok(SpecCPublishedFile_AreFilesInSubscriptionList_Response { files: v.files.push(m), ..v }),
                    Err(e) => Err(e),
                },
                Err(e) => Err(e),
            },
            _ => Ok(v),
        }
    }

    pub open spec fn apply_fn() -> spec_fn(SpecCPublishedFile_AreFilesInSubscriptionList_Response, SpecField) -> Result<SpecCPublishedFile_AreFilesInSubscriptionList_Response, WireError> {
        |v: SpecCPublishedFile_AreFilesInSubscriptionList_Response, f: SpecField| Self::spec_apply(v, f)
    }

    /// The message `bytes` makes of `v`: its records applied in order, or the error
    /// that stops the reading.
    pub open spec fn spec_merge(v: SpecCPublishedFile_AreFilesInSubscriptionList_Response, bytes: Seq<u8>) -> Result<SpecCPublishedFile_AreFilesInSubscriptionList_Response, WireError> {
        let (w, stop) = merge_run(v, bytes, Self::apply_fn());
        match stop {
            None => Ok(w),
            Some(e) => Err(e),
        }
    }

    #[verifier::opaque]
    pub open spec fn spec_decode(bytes: Seq<u8>) -> Result<SpecCPublishedFile_AreFilesInSubscriptionList_Response, WireError> {
        Self::spec_merge(Self::spec_default(), bytes)
    }

    /// This message with one record applied to it, or, when the record is refused,
    /// the message unchanged and the reason.
    fn applied(self, f: &Field) -> (r: Result<Self, (Self, WireError)>)
        ensures
            match Self::spec_apply(self@, f@) {
                Ok(v) => r matches Ok(m) && m@ == v,
                Err(e) => r matches Err((m, x)) && x == e && m@ == self@,
            },
    {
        match f.number {
            1 => match read_payload(&f.value) {
                Ok(b) => match crate::steammessages_publishedfile_steamclient::c_published_file_are_files_in_subscription_list_response::InList::decode(b) {
                    Ok(x) => {
                        let mut m = self;
                        let ghost before = m.files@;
                        m.files.push(x);
                        assert(crate::steammessages_publishedfile_steamclient::c_published_file_are_files_in_subscription_list_response::InList::view_all(m.files@) =~= crate::steammessages_publishedfile_steamclient::c_published_file_are_files_in_subscription_list_response::InList::view_all(before).push(x@));
                        Ok(m)
                    },
                    Err(e) => Err((self, e)),
                },
                Err(e) => Err((self, e)),
            },
            _ => Ok(self),
        }
    }

    /// Reads the records `bytes` holds into this message, in order. When a record does
    /// not parse or is refused, the reading stops there: the message keeps what the
    /// records before it gave, and the error is returned.
    pub fn merge(&mut self, bytes: &[u8]) -> (r: Result<(), WireError>)
        ensures
            final(self)@ == merge_run(old(self)@, bytes@, Self::apply_fn()).0,
            r == match merge_run(old(self)@, bytes@, Self::apply_fn()).1 {
                None => Ok::<(), WireError>(()),
                Some(e) => Err::<(), WireError>(e),
            },
    {
        let ghost total = merge_run(self@, bytes@, Self::apply_fn());
        let mut cur = Self::default();
        std::mem::swap(&mut cur, self);
        let mut pos: usize = 0;
        assert(bytes@.skip(0) =~= bytes@);
        while pos < bytes.len()
            invariant
                pos <= bytes@.len(),
                total == merge_run(old(self)@, bytes@, Self::apply_fn()),
                merge_run(cur@, bytes@.skip(pos as int), Self::apply_fn()) == total,
            decreases bytes@.len() - pos,
        {
            let ghost s = bytes@.skip(pos as int);
            proof {
                lemma_merge_run_step(cur@, s, Self::apply_fn());
                lemma_parse_field_len(s);
            }
            match read_field(bytes, pos) {
                Ok((f, end)) => {
                    assert(bytes@.skip(end as int) =~= s.skip((end - pos) as int));
                    match cur.applied(&f) {
                        Ok(m) => {
                            cur = m;
                        },
                        Err((m, e)) => {
                            *self = m;
                            return Err(e);
                        },
                    }
                    pos = end;
                },
                Err(e) => {
                    *self = cur;
                    return Err(e);
                },
            }
        }
        assert(bytes@.skip(pos as int) =~= Seq::<u8>::empty());
        proof {
            lemma_merge_run_empty(cur@, Self::apply_fn());
        }
        *self = cur;
        Ok(())
    }

    /// Decodes a message from its encoding.
    pub fn decode(bytes: &[u8]) -> (r: Result<Self, WireError>)
        ensures
            match Self::spec_decode(bytes@) {
                Ok(v) => r matches Ok(m) && m@ == v,
                Err(e) => r matches Err(x) && x == e,
            },
    {
        proof {
            reveal(CPublishedFile_AreFilesInSubscriptionList_Response::spec_decode);
        }
        let mut m = Self::default();
        match m.merge(bytes) {
            Ok(()) => Ok(m),
            Err(e) => Err(e),
        }
    }

    /// The encoding of this message.
    pub fn encode_to_vec(&self) -> (r: Vec<u8>)
        ensures
            r@ == Self::spec_encode(self@),
    {
        let enc_files = crate::steammessages_publishedfile_steamclient::c_published_file_are_files_in_subscription_list_response::InList::encode_all(&self.files);
        let ghost v = self@;
        let mut out: Vec<u8> = Vec::new();
        let ghost p0 = Seq::<SpecField>::empty();
        put_rep_bytes(&mut out, 1, &enc_files);
        let ghost p1 = p0 + rep_bytes(1, crate::steammessages_publishedfile_steamclient::c_published_file_are_files_in_subscription_list_response::InList::spec_encode_all(v.files));
        proof {
            lemma_fields_bytes_concat(p0, rep_bytes(1, crate::steammessages_publishedfile_steamclient::c_published_file_are_files_in_subscription_list_response::InList::spec_encode_all(v.files)));
        }
        proof {
            reveal(CPublishedFile_AreFilesInSubscriptionList_Response::spec_encode);
        }
        assert(p1 == Self::spec_fields(v));
        out
    }

    /// Appends the encoding of this message to `out`.
    pub fn encode_raw(&self, out: &mut Vec<u8>)
        ensures
            final(out)@ == old(out)@ + Self::spec_encode(self@),
    {
        let mut b = self.encode_to_vec();
        out.append(&mut b);
    }

    /// The first `k` fields of `v`, the others as a fresh message has them.
    #[verifier::opaque]
    pub open spec fn spec_prefix(v: SpecCPublishedFile_AreFilesInSubscriptionList_Response, k: int) -> SpecCPublishedFile_AreFilesInSubscriptionList_Response {
        SpecCPublishedFile_AreFilesInSubscriptionList_Response {
            files: if 1 <= k { v.files } else { Seq::empty() },
        }
    }

    /// Reading field 1 back, after the fields before it.
    proof fn lemma_field_files(v: SpecCPublishedFile_AreFilesInSubscriptionList_Response)
        requires
            fields_wf(rep_bytes(1, crate::steammessages_publishedfile_steamclient::c_published_file_are_files_in_subscription_list_response::InList::spec_encode_all(v.files))),
        ensures
            fold_fields(Self::spec_prefix(v, 0), rep_bytes(1, crate::steammessages_publishedfile_steamclient::c_published_file_are_files_in_subscription_list_response::InList::spec_encode_all(v.files)), Self::apply_fn())
                == Ok::<SpecCPublishedFile_AreFilesInSubscriptionList_Response, WireError>(Self::spec_prefix(v, 1)),
    {
        reveal(CPublishedFile_AreFilesInSubscriptionList_Response::spec_prefix);
        reveal(rep_bytes);
        reveal(fields_wf);
        let apply = Self::apply_fn();
        let s = Self::spec_prefix(v, 0);
        let l = rep_bytes(1, crate::steammessages_publishedfile_steamclient::c_published_file_are_files_in_subscription_list_response::InList::spec_encode_all(v.files));
        let xs = v.files;
        let st = Seq::new((xs.len() + 1) as nat, |j: int| SpecCPublishedFile_AreFilesInSubscriptionList_Response { files: xs.take(j), ..s });
        assert forall|j: int| 0 <= j < l.len() implies #[trigger] apply(st[j], l[j]) == Ok::<SpecCPublishedFile_AreFilesInSubscriptionList_Response, WireError>(st[j + 1]) by {
            assert(field_wf(l[j]));
            crate::steammessages_publishedfile_steamclient::c_published_file_are_files_in_subscription_list_response::InList::lemma_decode_encode(xs[j]);
            assert(xs.take(j).push(xs[j]) =~= xs.take(j + 1));
        }
        lemma_fold_chain(l, st, apply);
        assert(xs.take(0) =~= Seq::<crate::steammessages_publishedfile_steamclient::c_published_file_are_files_in_subscription_list_response::SpecInList>::empty());
        assert(xs.take(xs.len() as int) =~= xs);
        assert(st[0] == s);
        assert(st[xs.len() as int] == Self::spec_prefix(v, 1));
    }

    /// Whether this message declares field number `n`.
    pub open spec fn declares(n: u32) -> bool {
        n == 1
    }

    /// A record with a number this message does not declare is passed over: well-formed
    /// bytes decode to the same message with such a record after them as without it.
    pub proof fn lemma_unknown_field(bytes: Seq<u8>, f: SpecField)
        requires
            parse_fields(bytes) is Ok,
            field_wf(f),
            !Self::declares(f.number),
        ensures
            Self::spec_decode(bytes + field_bytes(f)) == Self::spec_decode(bytes),
    {
        reveal(CPublishedFile_AreFilesInSubscriptionList_Response::spec_decode);
        lemma_parse_fields_append(bytes, f);
        let fs = parse_fields(bytes).unwrap();
        let apply = Self::apply_fn();
        lemma_fold_concat(Self::spec_default(), fs, seq![f], apply);
        assert(fs.push(f) =~= fs + seq![f]);
        if let Ok(w) = fold_fields(Self::spec_default(), fs, apply) {
            lemma_fold_single(w, f, apply);
        }
        lemma_merge_run_fold(Self::spec_default(), bytes, apply);
        lemma_merge_run_fold(Self::spec_default(), bytes + field_bytes(f), apply);
    }

    /// Decoding the encoding of a message gives the message back.
    pub proof fn lemma_decode_encode(v: SpecCPublishedFile_AreFilesInSubscriptionList_Response)
        requires
            Self::spec_encode(v).len() <= u64::MAX,
        ensures
            Self::spec_decode(Self::spec_encode(v)) == Ok::<SpecCPublishedFile_AreFilesInSubscriptionList_Response, WireError>(v),
    {
        let apply = Self::apply_fn();
        let d = Self::spec_default();
        let p0 = Seq::<SpecField>::empty();
        let l1 = rep_bytes(1, crate::steammessages_publishedfile_steamclient::c_published_file_are_files_in_subscription_list_response::InList::spec_encode_all(v.files));
        let p1 = p0 + l1;
        assert(parse_fields(Self::spec_encode(v)) == Ok::<Seq<SpecField>, WireError>(p1) && fields_wf(l1)) by {
            reveal(CPublishedFile_AreFilesInSubscriptionList_Response::spec_encode);
            assert(numbers_ok(p0) && fields_wf(p0)) by {
                reveal(numbers_ok);
                reveal(fields_wf);
            }
            lemma_rep_bytes_numbered(1, crate::steammessages_publishedfile_steamclient::c_published_file_are_files_in_subscription_list_response::InList::spec_encode_all(v.files));
            lemma_fields_wf_concat(p0, l1);
            assert(p1 == Self::spec_fields(v));
            lemma_fields_wf_from_len(p1);
            lemma_fields_roundtrip(p1);
        }
        assert(Self::spec_prefix(v, 0) == d) by {
            reveal(CPublishedFile_AreFilesInSubscriptionList_Response::spec_prefix);
        }
        lemma_fold_empty(d, apply);
        lemma_fold_concat(d, p0, l1, apply);
        Self::lemma_field_files(v);
        assert(Self::spec_prefix(v, 1) == v) by {
            reveal(CPublishedFile_AreFilesInSubscriptionList_Response::spec_prefix);
        }
        lemma_merge_run_fold(d, Self::spec_encode(v), apply);
        assert(Self::spec_decode(Self::spec_encode(v)) == Ok::<SpecCPublishedFile_AreFilesInSubscriptionList_Response, WireError>(v)) by {
            reveal(CPublishedFile_AreFilesInSubscriptionList_Response::spec_decode);
        }
    }
}

/// `CPublishedFile_Update_Request`, as Valve's schema declares it.
#[derive(Debug, Clone, PartialEq)]
pub struct CPublishedFile_Update_Request {
    /// Field 1.
    pub appid: Option<u32>,
    /// Field 2.
    pub publishedfileid: Option<u64>,
    /// Field 3.
    pub title: Option<String>,
    /// Field 4.
    pub file_description: Option<String>,
    /// Field 5.
    pub visibility: Option<u32>,
    /// Field 6.
    pub tags: Vec<String>,
    /// Field 7.
    pub filename: Option<String>,
    /// Field 8.
    pub preview_filename: Option<String>,
    /// Field 10.
    pub spoiler_tag: Option<bool>,
    /// Field 15.
    pub image_width: Option<u32>,
    /// Field 16.
    pub image_height: Option<u32>,
    /// Field 17.
    pub language: Option<i32>,
}

/// What a `CPublishedFile_Update_Request` holds, as mathematical values.
#[verifier::ext_equal]
pub struct SpecCPublishedFile_Update_Request {
    pub appid: Option<u32>,
    pub publishedfileid: Option<u64>,
    pub title: Option<Seq<char>>,
    pub file_description: Option<Seq<char>>,
    pub visibility: Option<u32>,
    pub tags: Seq<Seq<char>>,
    pub filename: Option<Seq<char>>,
    pub preview_filename: Option<Seq<char>>,
    pub spoiler_tag: Option<bool>,
    pub image_width: Option<u32>,
    pub image_height: Option<u32>,
    pub language: Option<i32>,
}

impl View for CPublishedFile_Update_Request {
    type V = SpecCPublishedFile_Update_Request;

    open spec fn view(&self) -> SpecCPublishedFile_Update_Request {
        SpecCPublishedFile_Update_Request {
            appid: self.appid,
            publishedfileid: self.publishedfileid,
            title: opt_string_view(self.title),
            file_description: opt_string_view(self.file_description),
            visibility: self.visibility,
            tags: strings_view(self.tags@),
            filename: opt_string_view(self.filename),
            preview_filename: opt_string_view(self.preview_filename),
            spoiler_tag: self.spoiler_tag,
            image_width: self.image_width,
            image_height: self.image_height,
            language: self.language,
        }
    }
}

impl Default for CPublishedFile_Update_Request {
    fn default() -> (r: Self)
        ensures
            r@ == CPublishedFile_Update_Request::spec_default(),
    {
        CPublishedFile_Update_Request {
            appid: None,
            publishedfileid: None,
            title: None,
            file_description: None,
            visibility: None,
            tags: Vec::new(),
            filename: None,
            preview_filename: None,
            spoiler_tag: None,
            image_width: None,
            image_height: None,
            language: None,
        }
    }
}

impl CPublishedFile_Update_Request {
    pub open spec fn spec_default() -> SpecCPublishedFile_Update_Request {
        SpecCPublishedFile_Update_Request {
            appid: None,
            publishedfileid: None,
            title: None,
            file_description: None,
            visibility: None,
            tags: Seq::empty(),
            filename: None,
            preview_filename: None,
            spoiler_tag: None,
            image_width: None,
            image_height: None,
            language: None,
        }
    }

    /// The records a `CPublishedFile_Update_Request` is written as, in field order.
    pub open spec fn spec_fields(v: SpecCPublishedFile_Update_Request) -> Seq<SpecField> {
        Seq::<SpecField>::empty()
            + opt_u32(1, v.appid)
            + opt_fixed64(2, v.publishedfileid)
            + opt_string(3, v.title)
            + opt_string(4, v.file_description)
            + opt_u32(5, v.visibility)
            + rep_string(6, v.tags)
            + opt_string(7, v.filename)
            + opt_string(8, v.preview_filename)
            + opt_bool(10, v.spoiler_tag)
            + opt_u32(15, v.image_width)
            + opt_u32(16, v.image_height)
            + opt_i32(17, v.language)
    }

    #[verifier::opaque]
    pub open spec fn spec_encode(v: SpecCPublishedFile_Update_Request) -> Seq<u8> {
        fields_bytes(Self::spec_fields(v))
    }

    /// What one record does to the message: a declared number sets or extends its
    /// field, any other number is left alone.
    pub open spec fn spec_apply(v: SpecCPublishedFile_Update_Request, f: SpecField) -> Result<SpecCPublishedFile_Update_Request, WireError> {
        match f.number {
            1 => match dec_u32(f.value) {
                Ok(x) => Ok(SpecCPublishedFile_Update_Request { appid: Some(x), ..v }),
                Err(e) => Err(e),
            },
            2 => match dec_fixed64(f.value) {
                Ok(x) => Ok(SpecCPublishedFile_Update_Request { publishedfileid: Some(x), ..v }),
                Err(e) => Err(e),
            },
            3 => match dec_string(f.value) {
                Ok(x) => Ok(SpecCPublishedFile_Update_Request { title: Some(x), ..v }),
                Err(e) => Err(e),
            },
            4 => match dec_string(f.value) {
                Ok(x) => Ok(SpecCPublishedFile_Update_Request { file_description: Some(x), ..v }),
                Err(e) => Err(e),
            },
            5 => match dec_u32(f.value) {
                Ok(x) => Ok(SpecCPublishedFile_Update_Request { visibility: Some(x), ..v }),
                Err(e) => Err(e),
            },
            6 => match dec_string(f.value) {
                Ok(x) => Ok(SpecCPublishedFile_Update_Request { tags: v.tags.push(x), ..v }),
                Err(e) => Err(e),
            },
            7 => match dec_string(f.value) {
                Ok(x) => Ok(SpecCPublishedFile_Update_Request { filename: Some(x), ..v }),
                Err(e) => Err(e),
            },
            8 => match dec_string(f.value) {
                Ok(x) => Ok(SpecCPublishedFile_Update_Request { preview_filename: Some(x), ..v }),
                Err(e) => Err(e),
            },
            10 => match dec_bool(f.value) {
                Ok(x) => Ok(SpecCPublishedFile_Update_Request { spoiler_tag: Some(x), ..v }),
                Err(e) => Err(e),
            },
            15 => match dec_u32(f.value) {
                Ok(x) => Ok(SpecCPublishedFile_Update_Request { image_width: Some(x), ..v }),
                Err(e) => Err(e),
            },
            16 => match dec_u32(f.value) {
                Ok(x) => Ok(SpecCPublishedFile_Update_Request { image_height: Some(x), ..v }),
                Err(e) => Err(e),
            },
            17 => match dec_i32(f.value) {
                Ok(x) => Ok(SpecCPublishedFile_Update_Request { language: Some(x), ..v }),
                Err(e) => Err(e),
            },
            _ => Ok(v),
        }
    }

    pub open spec fn apply_fn() -> spec_fn(SpecCPublishedFile_Update_Request, SpecField) -> Result<SpecCPublishedFile_Update_Request, WireError> {
        |v: SpecCPublishedFile_Update_Request, f: SpecField| Self::spec_apply(v, f)
    }

    /// The message `bytes` makes of `v`: its records applied in order, or the error
    /// that stops the reading.
    pub open spec fn spec_merge(v: SpecCPublishedFile_Update_Request, bytes: Seq<u8>) -> Result<SpecCPublishedFile_Update_Request, WireError> {
        let (w, stop) = merge_run(v, bytes, Self::apply_fn());
        match stop {
            None => Ok(w),
            Some(e) => Err(e),
        }
    }

    #[verifier::opaque]
    pub open spec fn spec_decode(bytes: Seq<u8>) -> Result<SpecCPublishedFile_Update_Request, WireError> {
        Self::spec_merge(Self::spec_default(), bytes)
    }

    /// This message with one record applied to it, or, when the record is refused,
    /// the message unchanged and the reason.
    fn applied(self, f: &Field) -> (r: Result<Self, (Self, WireError)>)
        ensures
            match Self::spec_apply(self@, f@) {
                Ok(v) => r matches Ok(m) && m@ == v,
                Err(e) => r matches Err((m, x)) && x == e && m@ == self@,
            },
    {
        if f.number <= 6 {
            self.applied_0(f)
        } else {
            self.applied_1(f)
        }
    }

    /// `applied`, for the records numbered up to 6.
    fn applied_0(self, f: &Field) -> (r: Result<Self, (Self, WireError)>)
        requires
            f.number <= 6,
        ensures
            match Self::spec_apply(self@, f@) {
                Ok(v) => r matches Ok(m) && m@ == v,
                Err(e) => r matches Err((m, x)) && x == e && m@ == self@,
            },
    {
        match f.number {
            1 => match read_u32(&f.value) {
                Ok(x) => Ok(Self { appid: Some(x), ..self }),
                Err(e) => Err((self, e)),
            },
            2 => match read_fixed64(&f.value) {
                Ok(x) => Ok(Self { publishedfileid: Some(x), ..self }),
                Err(e) => Err((self, e)),
            },
            3 => match read_string(&f.value) {
                Ok(x) => Ok(Self { title: Some(x), ..self }),
                Err(e) => Err((self, e)),
            },
            4 => match read_string(&f.value) {
                Ok(x) => Ok(Self { file_description: Some(x), ..self }),
                Err(e) => Err((self, e)),
            },
            5 => match read_u32(&f.value) {
                Ok(x) => Ok(Self { visibility: Some(x), ..self }),
                Err(e) => Err((self, e)),
            },
            6 => match read_string(&f.value) {
                Ok(x) => {
                    let mut m = self;
                    let ghost before = m.tags@;
                    m.tags.push(x);
                    assert(strings_view(m.tags@) =~= strings_view(before).push(x@));
                    Ok(m)
                },
                Err(e) => Err((self, e)),
            },
            _ => Ok(self),
        }
    }

    /// `applied`, for the records numbered above 6.
    fn applied_1(self, f: &Field) -> (r: Result<Self, (Self, WireError)>)
        requires
            6 < f.number,
        ensures
            match Self::spec_apply(self@, f@) {
                Ok(v) => r matches Ok(m) && m@ == v,
                Err(e) => r matches Err((m, x)) && x == e && m@ == self@,
            },
    {
        match f.number {
            7 => match read_string(&f.value) {
                Ok(x) => Ok(Self { filename: Some(x), ..self }),
                Err(e) => Err((self, e)),
            },
            8 => match read_string(&f.value) {
                Ok(x) => Ok(Self { preview_filename: Some(x), ..self }),
                Err(e) => Err((self, e)),
            },
            10 => match read_bool(&f.value) {
                Ok(x) => Ok(Self { spoiler_tag: Some(x), ..self }),
                Err(e) => Err((self, e)),
            },
            15 => match read_u32(&f.value) {
                Ok(x) => Ok(Self { image_width: Some(x), ..self }),
                Err(e) => Err((self, e)),
            },
            16 => match read_u32(&f.value) {
                Ok(x) => Ok(Self { image_height: Some(x), ..self }),
                Err(e) => Err((self, e)),
            },
            17 => match read_i32(&f.value) {
                Ok(x) => Ok(Self { language: Some(x), ..self }),
                Err(e) => Err((self, e)),
            },
            _ => Ok(self),
        }
    }

    /// Reads the records `bytes` holds into this message, in order. When a record does
    /// not parse or is refused, the reading stops there: the message keeps what the
    /// records before it gave, and the error is returned.
    pub fn merge(&mut self, bytes: &[u8]) -> (r: Result<(), WireError>)
        ensures
            final(self)@ == merge_run(old(self)@, bytes@, Self::apply_fn()).0,
            r == match merge_run(old(self)@, bytes@, Self::apply_fn()).1 {
                None => Ok::<(), WireError>(()),
                Some(e) => Err::<(), WireError>(e),
            },
    {
        let ghost total = merge_run(self@, bytes@, Self::apply_fn());
        let mut cur = Self::default();
        std::mem::swap(&mut cur, self);
        let mut pos: usize = 0;
        assert(bytes@.skip(0) =~= bytes@);
        while pos < bytes.len()
            invariant
                pos <= bytes@.len(),
                total == merge_run(old(self)@, bytes@, Self::apply_fn()),
                merge_run(cur@, bytes@.skip(pos as int), Self::apply_fn()) == total,
            decreases bytes@.len() - pos,
        {
            let ghost s = bytes@.skip(pos as int);
            proof {
                lemma_merge_run_step(cur@, s, Self::apply_fn());
                lemma_parse_field_len(s);
            }
            match read_field(bytes, pos) {
                Ok((f, end)) => {
                    assert(bytes@.skip(end as int) =~= s.skip((end - pos) as int));
                    match cur.applied(&f) {
                        Ok(m) => {
                            cur = m;
                        },
                        Err((m, e)) => {
                            *self = m;
                            return Err(e);
                        },
                    }
                    pos = end;
                },
                Err(e) => {
                    *self = cur;
                    return Err(e);
                },
            }
        }
        assert(bytes@.skip(pos as int) =~= Seq::<u8>::empty());
        proof {
            lemma_merge_run_empty(cur@, Self::apply_fn());
        }
        *self = cur;
        Ok(())
    }

    /// Decodes a message from its encoding.
    pub fn decode(bytes: &[u8]) -> (r: Result<Self, WireError>)
        ensures
            match Self::spec_decode(bytes@) {
                Ok(v) => r matches Ok(m) && m@ == v,
                Err(e) => r matches Err(x) && x == e,
            },
    {
        proof {
            reveal(CPublishedFile_Update_Request::spec_decode);
        }
        let mut m = Self::default();
        match m.merge(bytes) {
            Ok(()) => Ok(m),
            Err(e) => Err(e),
        }
    }

    /// The encoding of this message.
    pub fn encode_to_vec(&self) -> (r: Vec<u8>)
        ensures
            r@ == Self::spec_encode(self@),
    {
        let ghost v = self@;
        let mut out: Vec<u8> = Vec::new();
        let ghost p0 = Seq::<SpecField>::empty();
        put_opt_u32(&mut out, 1, self.appid);
        let ghost p1 = p0 + opt_u32(1, v.appid);
        proof {
            lemma_fields_bytes_concat(p0, opt_u32(1, v.appid));
        }
        put_opt_fixed64(&mut out, 2, self.publishedfileid);
        let ghost p2 = p1 + opt_fixed64(2, v.publishedfileid);
        proof {
            lemma_fields_bytes_concat(p1, opt_fixed64(2, v.publishedfileid));
        }
        put_opt_string(&mut out, 3, &self.title);
        let ghost p3 = p2 + opt_string(3, v.title);
        proof {
            lemma_fields_bytes_concat(p2, opt_string(3, v.title));
        }
        put_opt_string(&mut out, 4, &self.file_description);
        let ghost p4 = p3 + opt_string(4, v.file_description);
        proof {
            lemma_fields_bytes_concat(p3, opt_string(4, v.file_description));
        }
        put_opt_u32(&mut out, 5, self.visibility);
        let ghost p5 = p4 + opt_u32(5, v.visibility);
        proof {
            lemma_fields_bytes_concat(p4, opt_u32(5, v.visibility));
        }
        put_rep_string(&mut out, 6, &self.tags);
        let ghost p6 = p5 + rep_string(6, v.tags);
        proof {
            lemma_fields_bytes_concat(p5, rep_string(6, v.tags));
        }
        put_opt_string(&mut out, 7, &self.filename);
        let ghost p7 = p6 + opt_string(7, v.filename);
        proof {
            lemma_fields_bytes_concat(p6, opt_string(7, v.filename));
        }
        put_opt_string(&mut out, 8, &self.preview_filename);
        let ghost p8 = p7 + opt_string(8, v.preview_filename);
        proof {
            lemma_fields_bytes_concat(p7, opt_string(8, v.preview_filename));
        }
        put_opt_bool(&mut out, 10, self.spoiler_tag);
        let ghost p9 = p8 + opt_bool(10, v.spoiler_tag);
        proof {
            lemma_fields_bytes_concat(p8, opt_bool(10, v.spoiler_tag));
        }
        put_opt_u32(&mut out, 15, self.image_width);
        let ghost p10 = p9 + opt_u32(15, v.image_width);
        proof {
            lemma_fields_bytes_concat(p9, opt_u32(15, v.image_width));
        }
        put_opt_u32(&mut out, 16, self.image_height);
        let ghost p11 = p10 + opt_u32(16, v.image_height);
        proof {
            lemma_fields_bytes_concat(p10, opt_u32(16, v.image_height));
        }
        put_opt_i32(&mut out, 17, self.language);
        let ghost p12 = p11 + opt_i32(17, v.language);
        proof {
            lemma_fields_bytes_concat(p11, opt_i32(17, v.language));
        }
        proof {
            reveal(CPublishedFile_Update_Request::spec_encode);
        }
        assert(p12 == Self::spec_fields(v));
        out
    }

    /// Appends the encoding of this message to `out`.
    pub fn encode_raw(&self, out: &mut Vec<u8>)
        ensures
            final(out)@ == old(out)@ + Self::spec_encode(self@),
    {
        let mut b = self.encode_to_vec();
        out.append(&mut b);
    }

    /// The first `k` fields of `v`, the others as a fresh message has them.
    #[verifier::opaque]
    pub open spec fn spec_prefix(v: SpecCPublishedFile_Update_Request, k: int) -> SpecCPublishedFile_Update_Request {
        SpecCPublishedFile_Update_Request {
            appid: if 1 <= k { v.appid } else { None },
            publishedfileid: if 2 <= k { v.publishedfileid } else { None },
            title: if 3 <= k { v.title } else { None },
            file_description: if 4 <= k { v.file_description } else { None },
            visibility: if 5 <= k { v.visibility } else { None },
            tags: if 6 <= k { v.tags } else { Seq::empty() },
            filename: if 7 <= k { v.filename } else { None },
            preview_filename: if 8 <= k { v.preview_filename } else { None },
            spoiler_tag: if 9 <= k { v.spoiler_tag } else { None },
            image_width: if 10 <= k { v.image_width } else { None },
            image_height: if 11 <= k { v.image_height } else { None },
            language: if 12 <= k { v.language } else { None },
        }
    }

    /// Reading field 1 back, after the fields before it.
    proof fn lemma_field_appid(v: SpecCPublishedFile_Update_Request)
        ensures
            fold_fields(Self::spec_prefix(v, 0), opt_u32(1, v.appid), Self::apply_fn())
                == Ok::<SpecCPublishedFile_Update_Request, WireError>(Self::spec_prefix(v, 1)),
    {
        reveal(CPublishedFile_Update_Request::spec_prefix);
        reveal(opt_u32);
        let apply = Self::apply_fn();
        let s = Self::spec_prefix(v, 0);
        lemma_fold_opt(s, 1, match v.appid { Some(x) => Some(enc_u32(x)), None => None }, apply);
        if let Some(x) = v.appid {
            lemma_u32_roundtrip(x);
        }
        assert(SpecCPublishedFile_Update_Request { appid: v.appid, ..s } == Self::spec_prefix(v, 1));
    }

    /// Reading field 2 back, after the fields before it.
    proof fn lemma_field_publishedfileid(v: SpecCPublishedFile_Update_Request)
        ensures
            fold_fields(Self::spec_prefix(v, 1), opt_fixed64(2, v.publishedfileid), Self::apply_fn())
                == Ok::<SpecCPublishedFile_Update_Request, WireError>(Self::spec_prefix(v, 2)),
    {
        reveal(CPublishedFile_Update_Request::spec_prefix);
        reveal(opt_fixed64);
        let apply = Self::apply_fn();
        let s = Self::spec_prefix(v, 1);
        lemma_fold_opt(s, 2, match v.publishedfileid { Some(x) => Some(enc_fixed64(x)), None => None }, apply);
        if let Some(x) = v.publishedfileid {
            lemma_u64_roundtrip(x);
        }
        assert(SpecCPublishedFile_Update_Request { publishedfileid: v.publishedfileid, ..s } == Self::spec_prefix(v, 2));
    }

    /// Reading field 3 back, after the fields before it.
    proof fn lemma_field_title(v: SpecCPublishedFile_Update_Request)
        ensures
            fold_fields(Self::spec_prefix(v, 2), opt_string(3, v.title), Self::apply_fn())
                == Ok::<SpecCPublishedFile_Update_Request, WireError>(Self::spec_prefix(v, 3)),
    {
        reveal(CPublishedFile_Update_Request::spec_prefix);
        reveal(opt_string);
        let apply = Self::apply_fn();
        let s = Self::spec_prefix(v, 2);
        lemma_fold_opt(s, 3, match v.title { Some(x) => Some(enc_string(x)), None => None }, apply);
        if let Some(x) = v.title {
            lemma_string_roundtrip(x);
        }
        assert(SpecCPublishedFile_Update_Request { title: v.title, ..s } == Self::spec_prefix(v, 3));
    }

    /// Reading field 4 back, after the fields before it.
    proof fn lemma_field_file_description(v: SpecCPublishedFile_Update_Request)
        ensures
            fold_fields(Self::spec_prefix(v, 3), opt_string(4, v.file_description), Self::apply_fn())
                == Ok::<SpecCPublishedFile_Update_Request, WireError>(Self::spec_prefix(v, 4)),
    {
        reveal(CPublishedFile_Update_Request::spec_prefix);
        reveal(opt_string);
        let apply = Self::apply_fn();
        let s = Self::spec_prefix(v, 3);
        lemma_fold_opt(s, 4, match v.file_description { Some(x) => Some(enc_string(x)), None => None }, apply);
        if let Some(x) = v.file_description {
            lemma_string_roundtrip(x);
        }
        assert(SpecCPublishedFile_Update_Request { file_description: v.file_description, ..s } == Self::spec_prefix(v, 4));
    }

    /// Reading field 5 back, after the fields before it.
    proof fn lemma_field_visibility(v: SpecCPublishedFile_Update_Request)
        ensures
            fold_fields(Self::spec_prefix(v, 4), opt_u32(5, v.visibility), Self::apply_fn())
                == Ok::<SpecCPublishedFile_Update_Request, WireError>(Self::spec_prefix(v, 5)),
    {
        reveal(CPublishedFile_Update_Request::spec_prefix);
        reveal(opt_u32);
        let apply = Self::apply_fn();
        let s = Self::spec_prefix(v, 4);
        lemma_fold_opt(s, 5, match v.visibility { Some(x) => Some(enc_u32(x)), None => None }, apply);
        if let Some(x) = v.visibility {
            lemma_u32_roundtrip(x);
        }
        assert(SpecCPublishedFile_Update_Request { visibility: v.visibility, ..s } == Self::spec_prefix(v, 5));
    }

    /// Reading field 6 back, after the fields before it.
    proof fn lemma_field_tags(v: SpecCPublishedFile_Update_Request)
        ensures
            fold_fields(Self::spec_prefix(v, 5), rep_string(6, v.tags), Self::apply_fn())
                == Ok::<SpecCPublishedFile_Update_Request, WireError>(Self::spec_prefix(v, 6)),
    {
        reveal(CPublishedFile_Update_Request::spec_prefix);
        reveal(rep_string);
        let apply = Self::apply_fn();
        let s = Self::spec_prefix(v, 5);
        let l = rep_string(6, v.tags);
        let xs = v.tags;
        let st = Seq::new((xs.len() + 1) as nat, |j: int| SpecCPublishedFile_Update_Request { tags: xs.take(j), ..s });
        assert forall|j: int| 0 <= j < l.len() implies #[trigger] apply(st[j], l[j]) == Ok::<SpecCPublishedFile_Update_Request, WireError>(st[j + 1]) by {
            lemma_string_roundtrip(xs[j]);
            assert(xs.take(j).push(xs[j]) =~= xs.take(j + 1));
        }
        lemma_fold_chain(l, st, apply);
        assert(xs.take(0) =~= Seq::<Seq<char>>::empty());
        assert(xs.take(xs.len() as int) =~= xs);
        assert(st[0] == s);
        assert(st[xs.len() as int] == Self::spec_prefix(v, 6));
    }

    /// Reading field 7 back, after the fields before it.
    proof fn lemma_field_filename(v: SpecCPublishedFile_Update_Request)
        ensures
            fold_fields(Self::spec_prefix(v, 6), opt_string(7, v.filename), Self::apply_fn())
                == Ok::<SpecCPublishedFile_Update_Request, WireError>(Self::spec_prefix(v, 7)),
    {
        reveal(CPublishedFile_Update_Request::spec_prefix);
        reveal(opt_string);
        let apply = Self::apply_fn();
        let s = Self::spec_prefix(v, 6);
        lemma_fold_opt(s, 7, match v.filename { Some(x) => Some(enc_string(x)), None => None }, apply);
        if let Some(x) = v.filename {
            lemma_string_roundtrip(x);
        }
        assert(SpecCPublishedFile_Update_Request { filename: v.filename, ..s } == Self::spec_prefix(v, 7));
    }

    /// Reading field 8 back, after the fields before it.
    proof fn lemma_field_preview_filename(v: SpecCPublishedFile_Update_Request)
        ensures
            fold_fields(Self::spec_prefix(v, 7), opt_string(8, v.preview_filename), Self::apply_fn())
                == Ok::<SpecCPublishedFile_Update_Request, WireError>(Self::spec_prefix(v, 8)),
    {
        reveal(CPublishedFile_Update_Request::spec_prefix);
        reveal(opt_string);
        let apply = Self::apply_fn();
        let s = Self::spec_prefix(v, 7);
        lemma_fold_opt(s, 8, match v.preview_filename { Some(x) => Some(enc_string(x)), None => None }, apply);
        if let Some(x) = v.preview_filename {
            lemma_string_roundtrip(x);
        }
        assert(SpecCPublishedFile_Update_Request { preview_filename: v.preview_filename, ..s } == Self::spec_prefix(v, 8));
    }

    /// Reading field 10 back, after the fields before it.
    proof fn lemma_field_spoiler_tag(v: SpecCPublishedFile_Update_Request)
        ensures
            fold_fields(Self::spec_prefix(v, 8), opt_bool(10, v.spoiler_tag), Self::apply_fn())
                == Ok::<SpecCPublishedFile_Update_Request, WireError>(Self::spec_prefix(v, 9)),
    {
        reveal(CPublishedFile_Update_Request::spec_prefix);
        reveal(opt_bool);
        let apply = Self::apply_fn();
        let s = Self::spec_prefix(v, 8);
        lemma_fold_opt(s, 10, match v.spoiler_tag { Some(x) => Some(enc_bool(x)), None => None }, apply);
        assert(SpecCPublishedFile_Update_Request { spoiler_tag: v.spoiler_tag, ..s } == Self::spec_prefix(v, 9));
    }

    /// Reading field 15 back, after the fields before it.
    proof fn lemma_field_image_width(v: SpecCPublishedFile_Update_Request)
        ensures
            fold_fields(Self::spec_prefix(v, 9), opt_u32(15, v.image_width), Self::apply_fn())
                == Ok::<SpecCPublishedFile_Update_Request, WireError>(Self::spec_prefix(v, 10)),
    {
        reveal(CPublishedFile_Update_Request::spec_prefix);
        reveal(opt_u32);
        let apply = Self::apply_fn();
        let s = Self::spec_prefix(v, 9);
        lemma_fold_opt(s, 15, match v.image_width { Some(x) => Some(enc_u32(x)), None => None }, apply);
        if let Some(x) = v.image_width {
            lemma_u32_roundtrip(x);
        }
        assert(SpecCPublishedFile_Update_Request { image_width: v.image_width, ..s } == Self::spec_prefix(v, 10));
    }

    /// Reading field 16 back, after the fields before it.
    proof fn lemma_field_image_height(v: SpecCPublishedFile_Update_Request)
        ensures
            fold_fields(Self::spec_prefix(v, 10), opt_u32(16, v.image_height), Self::apply_fn())
                == Ok::<SpecCPublishedFile_Update_Request, WireError>(Self::spec_prefix(v, 11)),
    {
        reveal(CPublishedFile_Update_Request::spec_prefix);
        reveal(opt_u32);
        let apply = Self::apply_fn();
        let s = Self::spec_prefix(v, 10);
        lemma_fold_opt(s, 16, match v.image_height { Some(x) => Some(enc_u32(x)), None => None }, apply);
        if let Some(x) = v.image_height {
            lemma_u32_roundtrip(x);
        }
        assert(SpecCPublishedFile_Update_Request { image_height: v.image_height, ..s } == Self::spec_prefix(v, 11));
    }

    /// Reading field 17 back, after the fields before it.
    proof fn lemma_field_language(v: SpecCPublishedFile_Update_Request)
        ensures
            fold_fields(Self::spec_prefix(v, 11), opt_i32(17, v.language), Self::apply_fn())
                == Ok::<SpecCPublishedFile_Update_Request, WireError>(Self::spec_prefix(v, 12)),
    {
        reveal(CPublishedFile_Update_Request::spec_prefix);
        reveal(opt_i32);
        let apply = Self::apply_fn();
        let s = Self::spec_prefix(v, 11);
        lemma_fold_opt(s, 17, match v.language { Some(x) => Some(enc_i32(x)), None => None }, apply);
        if let Some(x) = v.language {
            lemma_i32_roundtrip(x);
        }
        assert(SpecCPublishedFile_Update_Request { language: v.language, ..s } == Self::spec_prefix(v, 12));
    }

    /// Whether this message declares field number `n`.
    pub open spec fn declares(n: u32) -> bool {
        n == 1 || n == 2 || n == 3 || n == 4 || n == 5 || n == 6 || n == 7 || n == 8 || n == 10 || n == 15 || n == 16 || n == 17
    }

    /// A record with a number this message does not declare is passed over: well-formed
    /// bytes decode to the same message with such a record after them as without it.
    pub proof fn lemma_unknown_field(bytes: Seq<u8>, f: SpecField)
        requires
            parse_fields(bytes) is Ok,
            field_wf(f),
            !Self::declares(f.number),
        ensures
            Self::spec_decode(bytes + field_bytes(f)) == Self::spec_decode(bytes),
    {
        reveal(CPublishedFile_Update_Request::spec_decode);
        lemma_parse_fields_append(bytes, f);
        let fs = parse_fields(bytes).unwrap();
        let apply = Self::apply_fn();
        lemma_fold_concat(Self::spec_default(), fs, seq![f], apply);
        assert(fs.push(f) =~= fs + seq![f]);
        if let Ok(w) = fold_fields(Self::spec_default(), fs, apply) {
            lemma_fold_single(w, f, apply);
        }
        lemma_merge_run_fold(Self::spec_default(), bytes, apply);
        lemma_merge_run_fold(Self::spec_default(), bytes + field_bytes(f), apply);
    }

    /// Decoding the encoding of a message gives the message back.
    pub proof fn lemma_decode_encode(v: SpecCPublishedFile_Update_Request)
        requires
            Self::spec_encode(v).len() <= u64::MAX,
        ensures
            Self::spec_decode(Self::spec_encode(v)) == Ok::<SpecCPublishedFile_Update_Request, WireError>(v),
    {
        let apply = Self::apply_fn();
        let d = Self::spec_default();
        let p0 = Seq::<SpecField>::empty();
        let l1 = opt_u32(1, v.appid);
        let p1 = p0 + l1;
        let l2 = opt_fixed64(2, v.publishedfileid);
        let p2 = p1 + l2;
        let l3 = opt_string(3, v.title);
        let p3 = p2 + l3;
        let l4 = opt_string(4, v.file_description);
        let p4 = p3 + l4;
        let l5 = opt_u32(5, v.visibility);
        let p5 = p4 + l5;
        let l6 = rep_string(6, v.tags);
        let p6 = p5 + l6;
        let l7 = opt_string(7, v.filename);
        let p7 = p6 + l7;
        let l8 = opt_string(8, v.preview_filename);
        let p8 = p7 + l8;
        let l9 = opt_bool(10, v.spoiler_tag);
        let p9 = p8 + l9;
        let l10 = opt_u32(15, v.image_width);
        let p10 = p9 + l10;
        let l11 = opt_u32(16, v.image_height);
        let p11 = p10 + l11;
        let l12 = opt_i32(17, v.language);
        let p12 = p11 + l12;
        assert(parse_fields(Self::spec_encode(v)) == Ok::<Seq<SpecField>, WireError>(p12)) by {
            reveal(CPublishedFile_Update_Request::spec_encode);
            assert(numbers_ok(p0) && fields_wf(p0)) by {
                reveal(numbers_ok);
                reveal(fields_wf);
            }
            lemma_opt_u32_numbered(1, v.appid);
            lemma_fields_wf_concat(p0, l1);
            lemma_opt_fixed64_numbered(2, v.publishedfileid);
            lemma_fields_wf_concat(p1, l2);
            lemma_opt_string_numbered(3, v.title);
            lemma_fields_wf_concat(p2, l3);
            lemma_opt_string_numbered(4, v.file_description);
            lemma_fields_wf_concat(p3, l4);
            lemma_opt_u32_numbered(5, v.visibility);
            lemma_fields_wf_concat(p4, l5);
            lemma_rep_string_numbered(6, v.tags);
            lemma_fields_wf_concat(p5, l6);
            lemma_opt_string_numbered(7, v.filename);
            lemma_fields_wf_concat(p6, l7);
            lemma_opt_string_numbered(8, v.preview_filename);
            lemma_fields_wf_concat(p7, l8);
            lemma_opt_bool_numbered(10, v.spoiler_tag);
            lemma_fields_wf_concat(p8, l9);
            lemma_opt_u32_numbered(15, v.image_width);
            lemma_fields_wf_concat(p9, l10);
            lemma_opt_u32_numbered(16, v.image_height);
            lemma_fields_wf_concat(p10, l11);
            lemma_opt_i32_numbered(17, v.language);
            lemma_fields_wf_concat(p11, l12);
            assert(p12 == Self::spec_fields(v));
            lemma_fields_wf_from_len(p12);
            lemma_fields_roundtrip(p12);
        }
        assert(Self::spec_prefix(v, 0) == d) by {
            reveal(CPublishedFile_Update_Request::spec_prefix);
        }
        lemma_fold_empty(d, apply);
        lemma_fold_concat(d, p0, l1, apply);
        Self::lemma_field_appid(v);
        lemma_fold_concat(d, p1, l2, apply);
        Self::lemma_field_publishedfileid(v);
        lemma_fold_concat(d, p2, l3, apply);
        Self::lemma_field_title(v);
        lemma_fold_concat(d, p3, l4, apply);
        Self::lemma_field_file_description(v);
        lemma_fold_concat(d, p4, l5, apply);
        Self::lemma_field_visibility(v);
        lemma_fold_concat(d, p5, l6, apply);
        Self::lemma_field_tags(v);
        lemma_fold_concat(d, p6, l7, apply);
        Self::lemma_field_filename(v);
        lemma_fold_concat(d, p7, l8, apply);
        Self::lemma_field_preview_filename(v);
        lemma_fold_concat(d, p8, l9, apply);
        Self::lemma_field_spoiler_tag(v);
        lemma_fold_concat(d, p9, l10, apply);
        Self::lemma_field_image_width(v);
        lemma_fold_concat(d, p10, l11, apply);
        Self::lemma_field_image_height(v);
        lemma_fold_concat(d, p11, l12, apply);
        Self::lemma_field_language(v);
        assert(Self::spec_prefix(v, 12) == v) by {
            reveal(CPublishedFile_Update_Request::spec_prefix);
        }
        lemma_merge_run_fold(d, Self::spec_encode(v), apply);
        assert(Self::spec_decode(Self::spec_encode(v)) == Ok::<SpecCPublishedFile_Update_Request, WireError>(v)) by {
            reveal(CPublishedFile_Update_Request::spec_decode);
        }
    }
}

/// `CPublishedFile_Update_Response`, as Valve's schema declares it.
#[derive(Debug, Clone, PartialEq)]
pub struct CPublishedFile_Update_Response {}

/// What a `CPublishedFile_Update_Response` holds, as mathematical values.
#[verifier::ext_equal]
pub struct SpecCPublishedFile_Update_Response {}

impl View for CPublishedFile_Update_Response {
    type V = SpecCPublishedFile_Update_Response;

    open spec fn view(&self) -> SpecCPublishedFile_Update_Response {
        SpecCPublishedFile_Update_Response {}
    }
}

impl Default for CPublishedFile_Update_Response {
    fn default() -> (r: Self)
        ensures
            r@ == CPublishedFile_Update_Response::spec_default(),
    {
        CPublishedFile_Update_Response {}
    }
}

impl CPublishedFile_Update_Response {
    pub open spec fn spec_default() -> SpecCPublishedFile_Update_Response {
        SpecCPublishedFile_Update_Response {}
    }

    /// The records a `CPublishedFile_Update_Response` is written as, in field order.
    pub open spec fn spec_fields(v: SpecCPublishedFile_Update_Response) -> Seq<SpecField> {
        Seq::<SpecField>::empty()
    }

    #[verifier::opaque]
    pub open spec fn spec_encode(v: SpecCPublishedFile_Update_Response) -> Seq<u8> {
        fields_bytes(Self::spec_fields(v))
    }

    /// What one record does to the message: a declared number sets or extends its
    /// field, any other number is left alone.
    pub open spec fn spec_apply(v: SpecCPublishedFile_Update_Response, f: SpecField) -> Result<SpecCPublishedFile_Update_Response, WireError> {
        match f.number {
            _ => Ok(v),
        }
    }

    pub open spec fn apply_fn() -> spec_fn(SpecCPublishedFile_Update_Response, SpecField) -> Result<SpecCPublishedFile_Update_Response, WireError> {
        |v: SpecCPublishedFile_Update_Response, f: SpecField| Self::spec_apply(v, f)
    }

    /// The message `bytes` makes of `v`: its records applied in order, or the error
    /// that stops the reading.
    pub open spec fn spec_merge(v: SpecCPublishedFile_Update_Response, bytes: Seq<u8>) -> Result<SpecCPublishedFile_Update_Response, WireError> {
        let (w, stop) = merge_run(v, bytes, Self::apply_fn());
        match stop {
            None => Ok(w),
            Some(e) => Err(e),
        }
    }

    #[verifier::opaque]
    pub open spec fn spec_decode(bytes: Seq<u8>) -> Result<SpecCPublishedFile_Update_Response, WireError> {
        Self::spec_merge(Self::spec_default(), bytes)
    }

    /// This message with one record applied to it, or, when the record is refused,
    /// the message unchanged and the reason.
    fn applied(self, f: &Field) -> (r: Result<Self, (Self, WireError)>)
        ensures
            match Self::spec_apply(self@, f@) {
                Ok(v) => r matches Ok(m) && m@ == v,
                Err(e) => r matches Err((m, x)) && x == e && m@ == self@,
            },
    {
        match f.number {
            _ => Ok(self),
        }
    }

    /// Reads the records `bytes` holds into this message, in order. When a record does
    /// not parse or is refused, the reading stops there: the message keeps what the
    /// records before it gave, and the error is returned.
    pub fn merge(&mut self, bytes: &[u8]) -> (r: Result<(), WireError>)
        ensures
            final(self)@ == merge_run(old(self)@, bytes@, Self::apply_fn()).0,
            r == match merge_run(old(self)@, bytes@, Self::apply_fn()).1 {
                None => Ok::<(), WireError>(()),
                Some(e) => Err::<(), WireError>(e),
            },
    {
        let ghost total = merge_run(self@, bytes@, Self::apply_fn());
        let mut cur = Self::default();
        std::mem::swap(&mut cur, self);
        let mut pos: usize = 0;
        assert(bytes@.skip(0) =~= bytes@);
        while pos < bytes.len()
            invariant
                pos <= bytes@.len(),
                total == merge_run(old(self)@, bytes@, Self::apply_fn()),
                merge_run(cur@, bytes@.skip(pos as int), Self::apply_fn()) == total,
            decreases bytes@.len() - pos,
        {
            let ghost s = bytes@.skip(pos as int);
            proof {
                lemma_merge_run_step(cur@, s, Self::apply_fn());
                lemma_parse_field_len(s);
            }
            match read_field(bytes, pos) {
                Ok((f, end)) => {
                    assert(bytes@.skip(end as int) =~= s.skip((end - pos) as int));
                    match cur.applied(&f) {
                        Ok(m) => {
                            cur = m;
                        },
                        Err((m, e)) => {
                            *self = m;
                            return Err(e);
                        },
                    }
                    pos = end;
                },
                Err(e) => {
                    *self = cur;
                    return Err(e);
                },
            }
        }
        assert(bytes@.skip(pos as int) =~= Seq::<u8>::empty());
        proof {
            lemma_merge_run_empty(cur@, Self::apply_fn());
        }
        *self = cur;
        Ok(())
    }

    /// Decodes a message from its encoding.
    pub fn decode(bytes: &[u8]) -> (r: Result<Self, WireError>)
        ensures
            match Self::spec_decode(bytes@) {
                Ok(v) => r matches Ok(m) && m@ == v,
                Err(e) => r matches Err(x) && x == e,
            },
    {
        proof {
            reveal(CPublishedFile_Update_Response::spec_decode);
        }
        let mut m = Self::default();
        match m.merge(bytes) {
            Ok(()) => Ok(m),
            Err(e) => Err(e),
        }
    }

    /// The encoding of this message.
    pub fn encode_to_vec(&self) -> (r: Vec<u8>)
        ensures
            r@ == Self::spec_encode(self@),
    {
        let ghost v = self@;
        let mut out: Vec<u8> = Vec::new();
        let ghost p0 = Seq::<SpecField>::empty();
        proof {
            reveal(CPublishedFile_Update_Response::spec_encode);
        }
        assert(p0 == Self::spec_fields(v));
        assert(out@ =~= fields_bytes(p0));
        out
    }

    /// Appends the encoding of this message to `out`.
    pub fn encode_raw(&self, out: &mut Vec<u8>)
        ensures
            final(out)@ == old(out)@ + Self::spec_encode(self@),
    {
        let mut b = self.encode_to_vec();
        out.append(&mut b);
    }

    /// The first `k` fields of `v`, the others as a fresh message has them.
    #[verifier::opaque]
    pub open spec fn spec_prefix(v: SpecCPublishedFile_Update_Response, k: int) -> SpecCPublishedFile_Update_Response {
        SpecCPublishedFile_Update_Response {}
    }

    /// Whether this message declares field number `n`.
    pub open spec fn declares(n: u32) -> bool {
        false
    }

    /// A record with a number this message does not declare is passed over: well-formed
    /// bytes decode to the same message with such a record after them as without it.
    pub proof fn lemma_unknown_field(bytes: Seq<u8>, f: SpecField)
        requires
            parse_fields(bytes) is Ok,
            field_wf(f),
            !Self::declares(f.number),
        ensures
            Self::spec_decode(bytes + field_bytes(f)) == Self::spec_decode(bytes),
    {
        reveal(CPublishedFile_Update_Response::spec_decode);
        lemma_parse_fields_append(bytes, f);
        let fs = parse_fields(bytes).unwrap();
        let apply = Self::apply_fn();
        lemma_fold_concat(Self::spec_default(), fs, seq![f], apply);
        assert(fs.push(f) =~= fs + seq![f]);
        if let Ok(w) = fold_fields(Self::spec_default(), fs, apply) {
            lemma_fold_single(w, f, apply);
        }
        lemma_merge_run_fold(Self::spec_default(), bytes, apply);
        lemma_merge_run_fold(Self::spec_default(), bytes + field_bytes(f), apply);
    }

    /// Decoding the encoding of a message gives the message back.
    pub proof fn lemma_decode_encode(v: SpecCPublishedFile_Update_Response)
        requires
            Self::spec_encode(v).len() <= u64::MAX,
        ensures
            Self::spec_decode(Self::spec_encode(v)) == Ok::<SpecCPublishedFile_Update_Response, WireError>(v),
    {
        let apply = Self::apply_fn();
        let d = Self::spec_default();
        let p0 = Seq::<SpecField>::empty();
        assert(parse_fields(Self::spec_encode(v)) == Ok::<Seq<SpecField>, WireError>(p0)) by {
            reveal(CPublishedFile_Update_Response::spec_encode);
            assert(numbers_ok(p0) && fields_wf(p0)) by {
                reveal(numbers_ok);
                reveal(fields_wf);
            }
            assert(p0 == Self::spec_fields(v));
            lemma_fields_wf_from_len(p0);
            lemma_fields_roundtrip(p0);
        }
        assert(Self::spec_prefix(v, 0) == d) by {
            reveal(CPublishedFile_Update_Response::spec_prefix);
        }
        lemma_fold_empty(d, apply);
        assert(Self::spec_prefix(v, 0) == v) by {
            reveal(CPublishedFile_Update_Response::spec_prefix);
        }
        lemma_merge_run_fold(d, Self::spec_encode(v), apply);
        assert(Self::spec_decode(Self::spec_encode(v)) == Ok::<SpecCPublishedFile_Update_Response, WireError>(v)) by {
            reveal(CPublishedFile_Update_Response::spec_decode);
        }
    }
}

/// `CPublishedFile_Delete_Request`, as Valve's schema declares it.
#[derive(Debug, Clone, PartialEq)]
pub struct CPublishedFile_Delete_Request {
    /// Field 1.
    pub publishedfileid: Option<u64>,
    /// Field 5.
    pub appid: Option<u32>,
}

/// What a `CPublishedFile_Delete_Request` holds, as mathematical values.
#[verifier::ext_equal]
pub struct SpecCPublishedFile_Delete_Request {
    pub publishedfileid: Option<u64>,
    pub appid: Option<u32>,
}

impl View for CPublishedFile_Delete_Request {
    type V = SpecCPublishedFile_Delete_Request;

    open spec fn view(&self) -> SpecCPublishedFile_Delete_Request {
        SpecCPublishedFile_Delete_Request {
            publishedfileid: self.publishedfileid,
            appid: self.appid,
        }
    }
}

impl Default for CPublishedFile_Delete_Request {
    fn default() -> (r: Self)
        ensures
            r@ == CPublishedFile_Delete_Request::spec_default(),
    {
        CPublishedFile_Delete_Request {
            publishedfileid: None,
            appid: None,
        }
    }
}

impl CPublishedFile_Delete_Request {
    pub open spec fn spec_default() -> SpecCPublishedFile_Delete_Request {
        SpecCPublishedFile_Delete_Request {
            publishedfileid: None,
            appid: None,
        }
    }

    /// The records a `CPublishedFile_Delete_Request` is written as, in field order.
    pub open spec fn spec_fields(v: SpecCPublishedFile_Delete_Request) -> Seq<SpecField> {
        Seq::<SpecField>::empty()
            + opt_fixed64(1, v.publishedfileid)
            + opt_u32(5, v.appid)
    }

    #[verifier::opaque]
    pub open spec fn spec_encode(v: SpecCPublishedFile_Delete_Request) -> Seq<u8> {
        fields_bytes(Self::spec_fields(v))
    }

    /// What one record does to the message: a declared number sets or extends its
    /// field, any other number is left alone.
    pub open spec fn spec_apply(v: SpecCPublishedFile_Delete_Request, f: SpecField) -> Result<SpecCPublishedFile_Delete_Request, WireError> {
        match f.number {
            1 => match dec_fixed64(f.value) {
                Ok(x) => Ok(SpecCPublishedFile_Delete_Request { publishedfileid: Some(x), ..v }),
                Err(e) => Err(e),
            },
            5 => match dec_u32(f.value) {
                Ok(x) => Ok(SpecCPublishedFile_Delete_Request { appid: Some(x), ..v }),
                Err(e) => Err(e),
            },
            _ => Ok(v),
        }
    }

    pub open spec fn apply_fn() -> spec_fn(SpecCPublishedFile_Delete_Request, SpecField) -> Result<SpecCPublishedFile_Delete_Request, WireError> {
        |v: SpecCPublishedFile_Delete_Request, f: SpecField| Self::spec_apply(v, f)
    }

    /// The message `bytes` makes of `v`: its records applied in order, or the error
    /// that stops the reading.
    pub open spec fn spec_merge(v: SpecCPublishedFile_Delete_Request, bytes: Seq<u8>) -> Result<SpecCPublishedFile_Delete_Request, WireError> {
        let (w, stop) = merge_run(v, bytes, Self::apply_fn());
        match stop {
            None => Ok(w),
            Some(e) => Err(e),
        }
    }

    #[verifier::opaque]
    pub open spec fn spec_decode(bytes: Seq<u8>) -> Result<SpecCPublishedFile_Delete_Request, WireError> {
        Self::spec_merge(Self::spec_default(), bytes)
    }

    /// This message with one record applied to it, or, when the record is refused,
    /// the message unchanged and the reason.
    fn applied(self, f: &Field) -> (r: Result<Self, (Self, WireError)>)
        ensures
            match Self::spec_apply(self@, f@) {
                Ok(v) => r matches Ok(m) && m@ == v,
                Err(e) => r matches Err((m, x)) && x == e && m@ == self@,
            },
    {
        match f.number {
            1 => match read_fixed64(&f.value) {
                Ok(x) => Ok(Self { publishedfileid: Some(x), ..self }),
                Err(e) => Err((self, e)),
            },
            5 => match read_u32(&f.value) {
                Ok(x) => Ok(Self { appid: Some(x), ..self }),
                Err(e) => Err((self, e)),
            },
            _ => Ok(self),
        }
    }

    /// Reads the records `bytes` holds into this message, in order. When a record does
    /// not parse or is refused, the reading stops there: the message keeps what the
    /// records before it gave, and the error is returned.
    pub fn merge(&mut self, bytes: &[u8]) -> (r: Result<(), WireError>)
        ensures
            final(self)@ == merge_run(old(self)@, bytes@, Self::apply_fn()).0,
            r == match merge_run(old(self)@, bytes@, Self::apply_fn()).1 {
                None => Ok::<(), WireError>(()),
                Some(e) => Err::<(), WireError>(e),
            },
    {
        let ghost total = merge_run(self@, bytes@, Self::apply_fn());
        let mut cur = Self::default();
        std::mem::swap(&mut cur, self);
        let mut pos: usize = 0;
        assert(bytes@.skip(0) =~= bytes@);
        while pos < bytes.len()
            invariant
                pos <= bytes@.len(),
                total == merge_run(old(self)@, bytes@, Self::apply_fn()),
                merge_run(cur@, bytes@.skip(pos as int), Self::apply_fn()) == total,
            decreases bytes@.len() - pos,
        {
            let ghost s = bytes@.skip(pos as int);
            proof {
                lemma_merge_run_step(cur@, s, Self::apply_fn());
                lemma_parse_field_len(s);
            }
            match read_field(bytes, pos) {
                Ok((f, end)) => {
                    assert(bytes@.skip(end as int) =~= s.skip((end - pos) as int));
                    match cur.applied(&f) {
                        Ok(m) => {
                            cur = m;
                        },
                        Err((m, e)) => {
                            *self = m;
                            return Err(e);
                        },
                    }
                    pos = end;
                },
                Err(e) => {
                    *self = cur;
                    return Err(e);
                },
            }
        }
        assert(bytes@.skip(pos as int) =~= Seq::<u8>::empty());
        proof {
            lemma_merge_run_empty(cur@, Self::apply_fn());
        }
        *self = cur;
        Ok(())
    }

    /// Decodes a message from its encoding.
    pub fn decode(bytes: &[u8]) -> (r: Result<Self, WireError>)
        ensures
            match Self::spec_decode(bytes@) {
                Ok(v) => r matches Ok(m) && m@ == v,
                Err(e) => r matches Err(x) && x == e,
            },
    {
        proof {
            reveal(CPublishedFile_Delete_Request::spec_decode);
        }
        let mut m = Self::default();
        match m.merge(bytes) {
            Ok(()) => Ok(m),
            Err(e) => Err(e),
        }
    }

    /// The encoding of this message.
    pub fn encode_to_vec(&self) -> (r: Vec<u8>)
        ensures
            r@ == Self::spec_encode(self@),
    {
        let ghost v = self@;
        let mut out: Vec<u8> = Vec::new();
        let ghost p0 = Seq::<SpecField>::empty();
        put_opt_fixed64(&mut out, 1, self.publishedfileid);
        let ghost p1 = p0 + opt_fixed64(1, v.publishedfileid);
        proof {
            lemma_fields_bytes_concat(p0, opt_fixed64(1, v.publishedfileid));
        }
        put_opt_u32(&mut out, 5, self.appid);
        let ghost p2 = p1 + opt_u32(5, v.appid);
        proof {
            lemma_fields_bytes_concat(p1, opt_u32(5, v.appid));
        }
        proof {
            reveal(CPublishedFile_Delete_Request::spec_encode);
        }
        assert(p2 == Self::spec_fields(v));
        out
    }

    /// Appends the encoding of this message to `out`.
    pub fn encode_raw(&self, out: &mut Vec<u8>)
        ensures
            final(out)@ == old(out)@ + Self::spec_encode(self@),
    {
        let mut b = self.encode_to_vec();
        out.append(&mut b);
    }

    /// The first `k` fields of `v`, the others as a fresh message has them.
    #[verifier::opaque]
    pub open spec fn spec_prefix(v: SpecCPublishedFile_Delete_Request, k: int) -> SpecCPublishedFile_Delete_Request {
        SpecCPublishedFile_Delete_Request {
            publishedfileid: if 1 <= k { v.publishedfileid } else { None },
            appid: if 2 <= k { v.appid } else { None },
        }
    }

    /// Reading field 1 back, after the fields before it.
    proof fn lemma_field_publishedfileid(v: SpecCPublishedFile_Delete_Request)
        ensures
            fold_fields(Self::spec_prefix(v, 0), opt_fixed64(1, v.publishedfileid), Self::apply_fn())
                == Ok::<SpecCPublishedFile_Delete_Request, WireError>(Self::spec_prefix(v, 1)),
    {
        reveal(CPublishedFile_Delete_Request::spec_prefix);
        reveal(opt_fixed64);
        let apply = Self::apply_fn();
        let s = Self::spec_prefix(v, 0);
        lemma_fold_opt(s, 1, match v.publishedfileid { Some(x) => Some(enc_fixed64(x)), None => None }, apply);
        if let Some(x) = v.publishedfileid {
            lemma_u64_roundtrip(x);
        }
        assert(SpecCPublishedFile_Delete_Request { publishedfileid: v.publishedfileid, ..s } == Self::spec_prefix(v, 1));
    }

    /// Reading field 5 back, after the fields before it.
    proof fn lemma_field_appid(v: SpecCPublishedFile_Delete_Request)
        ensures
            fold_fields(Self::spec_prefix(v, 1), opt_u32(5, v.appid), Self::apply_fn())
                == Ok::<SpecCPublishedFile_Delete_Request, WireError>(Self::spec_prefix(v, 2)),
    {
        reveal(CPublishedFile_Delete_Request::spec_prefix);
        reveal(opt_u32);
        let apply = Self::apply_fn();
        let s = Self::spec_prefix(v, 1);
        lemma_fold_opt(s, 5, match v.appid { Some(x) => Some(enc_u32(x)), None => None }, apply);
        if let Some(x) = v.appid {
            lemma_u32_roundtrip(x);
        }
        assert(SpecCPublishedFile_Delete_Request { appid: v.appid, ..s } == Self::spec_prefix(v, 2));
    }

    /// Whether this message declares field number `n`.
    pub open spec fn declares(n: u32) -> bool {
        n == 1 || n == 5
    }

    /// A record with a number this message does not declare is passed over: well-formed
    /// bytes decode to the same message with such a record after them as without it.
    pub proof fn lemma_unknown_field(bytes: Seq<u8>, f: SpecField)
        requires
            parse_fields(bytes) is Ok,
            field_wf(f),
            !Self::declares(f.number),
        ensures
            Self::spec_decode(bytes + field_bytes(f)) == Self::spec_decode(bytes),
    {
        reveal(CPublishedFile_Delete_Request::spec_decode);
        lemma_parse_fields_append(bytes, f);
        let fs = parse_fields(bytes).unwrap();
        let apply = Self::apply_fn();
        lemma_fold_concat(Self::spec_default(), fs, seq![f], apply);
        assert(fs.push(f) =~= fs + seq![f]);
        if let Ok(w) = fold_fields(Self::spec_default(), fs, apply) {
            lemma_fold_single(w, f, apply);
        }
        lemma_merge_run_fold(Self::spec_default(), bytes, apply);
        lemma_merge_run_fold(Self::spec_default(), bytes + field_bytes(f), apply);
    }

    /// Decoding the encoding of a message gives the message back.
    pub proof fn lemma_decode_encode(v: SpecCPublishedFile_Delete_Request)
        requires
            Self::spec_encode(v).len() <= u64::MAX,
        ensures
            Self::spec_decode(Self::spec_encode(v)) == Ok::<SpecCPublishedFile_Delete_Request, WireError>(v),
    {
        let apply = Self::apply_fn();
        let d = Self::spec_default();
        let p0 = Seq::<SpecField>::empty();
        let l1 = opt_fixed64(1, v.publishedfileid);
        let p1 = p0 + l1;
        let l2 = opt_u32(5, v.appid);
        let p2 = p1 + l2;
        assert(parse_fields(Self::spec_encode(v)) == Ok::<Seq<SpecField>, WireError>(p2)) by {
            reveal(CPublishedFile_Delete_Request::spec_encode);
            assert(numbers_ok(p0) && fields_wf(p0)) by {
                reveal(numbers_ok);
                reveal(fields_wf);
            }
            lemma_opt_fixed64_numbered(1, v.publishedfileid);
            lemma_fields_wf_concat(p0, l1);
            lemma_opt_u32_numbered(5, v.appid);
            lemma_fields_wf_concat(p1, l2);
            assert(p2 == Self::spec_fields(v));
            lemma_fields_wf_from_len(p2);
            lemma_fields_roundtrip(p2);
        }
        assert(Self::spec_prefix(v, 0) == d) by {
            reveal(CPublishedFile_Delete_Request::spec_prefix);
        }
        lemma_fold_empty(d, apply);
        lemma_fold_concat(d, p0, l1, apply);
        Self::lemma_field_publishedfileid(v);
        lemma_fold_concat(d, p1, l2, apply);
        Self::lemma_field_appid(v);
        assert(Self::spec_prefix(v, 2) == v) by {
            reveal(CPublishedFile_Delete_Request::spec_prefix);
        }
        lemma_merge_run_fold(d, Self::spec_encode(v), apply);
        assert(Self::spec_decode(Self::spec_encode(v)) == Ok::<SpecCPublishedFile_Delete_Request, WireError>(v)) by {
            reveal(CPublishedFile_Delete_Request::spec_decode);
        }
    }
}

/// `CPublishedFile_Delete_Response`, as Valve's schema declares it.
#[derive(Debug, Clone, PartialEq)]
pub struct CPublishedFile_Delete_Response {}

/// What a `CPublishedFile_Delete_Response` holds, as mathematical values.
#[verifier::ext_equal]
pub struct SpecCPublishedFile_Delete_Response {}

impl View for CPublishedFile_Delete_Response {
    type V = SpecCPublishedFile_Delete_Response;

    open spec fn view(&self) -> SpecCPublishedFile_Delete_Response {
        SpecCPublishedFile_Delete_Response {}
    }
}

impl Default for CPublishedFile_Delete_Response {
    fn default() -> (r: Self)
        ensures
            r@ == CPublishedFile_Delete_Response::spec_default(),
    {
        CPublishedFile_Delete_Response {}
    }
}

impl CPublishedFile_Delete_Response {
    pub open spec fn spec_default() -> SpecCPublishedFile_Delete_Response {
        SpecCPublishedFile_Delete_Response {}
    }

    /// The records a `CPublishedFile_Delete_Response` is written as, in field order.
    pub open spec fn spec_fields(v: SpecCPublishedFile_Delete_Response) -> Seq<SpecField> {
        Seq::<SpecField>::empty()
    }

    #[verifier::opaque]
    pub open spec fn spec_encode(v: SpecCPublishedFile_Delete_Response) -> Seq<u8> {
        fields_bytes(Self::spec_fields(v))
    }

    /// What one record does to the message: a declared number sets or extends its
    /// field, any other number is left alone.
    pub open spec fn spec_apply(v: SpecCPublishedFile_Delete_Response, f: SpecField) -> Result<SpecCPublishedFile_Delete_Response, WireError> {
        match f.number {
            _ => Ok(v),
        }
    }

    pub open spec fn apply_fn() -> spec_fn(SpecCPublishedFile_Delete_Response, SpecField) -> Result<SpecCPublishedFile_Delete_Response, WireError> {
        |v: SpecCPublishedFile_Delete_Response, f: SpecField| Self::spec_apply(v, f)
    }

    /// The message `bytes` makes of `v`: its records applied in order, or the error
    /// that stops the reading.
    pub open spec fn spec_merge(v: SpecCPublishedFile_Delete_Response, bytes: Seq<u8>) -> Result<SpecCPublishedFile_Delete_Response, WireError> {
        let (w, stop) = merge_run(v, bytes, Self::apply_fn());
        match stop {
            None => Ok(w),
            Some(e) => Err(e),
        }
    }

    #[verifier::opaque]
    pub open spec fn spec_decode(bytes: Seq<u8>) -> Result<SpecCPublishedFile_Delete_Response, WireError> {
        Self::spec_merge(Self::spec_default(), bytes)
    }

    /// This message with one record applied to it, or, when the record is refused,
    /// the message unchanged and the reason.
    fn applied(self, f: &Field) -> (r: Result<Self, (Self, WireError)>)
        ensures
            match Self::spec_apply(self@, f@) {
                Ok(v) => r matches Ok(m) && m@ == v,
                Err(e) => r matches Err((m, x)) && x == e && m@ == self@,
            },
    {
        match f.number {
            _ => Ok(self),
        }
    }

    /// Reads the records `bytes` holds into this message, in order. When a record does
    /// not parse or is refused, the reading stops there: the message keeps what the
    /// records before it gave, and the error is returned.
    pub fn merge(&mut self, bytes: &[u8]) -> (r: Result<(), WireError>)
        ensures
            final(self)@ == merge_run(old(self)@, bytes@, Self::apply_fn()).0,
            r == match merge_run(old(self)@, bytes@, Self::apply_fn()).1 {
                None => Ok::<(), WireError>(()),
                Some(e) => Err::<(), WireError>(e),
            },
    {
        let ghost total = merge_run(self@, bytes@, Self::apply_fn());
        let mut cur = Self::default();
        std::mem::swap(&mut cur, self);
        let mut pos: usize = 0;
        assert(bytes@.skip(0) =~= bytes@);
        while pos < bytes.len()
            invariant
                pos <= bytes@.len(),
                total == merge_run(old(self)@, bytes@, Self::apply_fn()),
                merge_run(cur@, bytes@.skip(pos as int), Self::apply_fn()) == total,
            decreases bytes@.len() - pos,
        {
            let ghost s = bytes@.skip(pos as int);
            proof {
                lemma_merge_run_step(cur@, s, Self::apply_fn());
                lemma_parse_field_len(s);
            }
            match read_field(bytes, pos) {
                Ok((f, end)) => {
                    assert(bytes@.skip(end as int) =~= s.skip((end - pos) as int));
                    match cur.applied(&f) {
                        Ok(m) => {
                            cur = m;
                        },
                        Err((m, e)) => {
                            *self = m;
                            return Err(e);
                        },
                    }
                    pos = end;
                },
                Err(e) => {
                    *self = cur;
                    return Err(e);
                },
            }
        }
        assert(bytes@.skip(pos as int) =~= Seq::<u8>::empty());
        proof {
            lemma_merge_run_empty(cur@, Self::apply_fn());
        }
        *self = cur;
        Ok(())
    }

    /// Decodes a message from its encoding.
    pub fn decode(bytes: &[u8]) -> (r: Result<Self, WireError>)
        ensures
            match Self::spec_decode(bytes@) {
                Ok(v) => r matches Ok(m) && m@ == v,
                Err(e) => r matches Err(x) && x == e,
            },
    {
        proof {
            reveal(CPublishedFile_Delete_Response::spec_decode);
        }
        let mut m = Self::default();
        match m.merge(bytes) {
            Ok(()) => Ok(m),
            Err(e) => Err(e),
        }
    }

    /// The encoding of this message.
    pub fn encode_to_vec(&self) -> (r: Vec<u8>)
        ensures
            r@ == Self::spec_encode(self@),
    {
        let ghost v = self@;
        let mut out: Vec<u8> = Vec::new();
        let ghost p0 = Seq::<SpecField>::empty();
        proof {
            reveal(CPublishedFile_Delete_Response::spec_encode);
        }
        assert(p0 == Self::spec_fields(v));
        assert(out@ =~= fields_bytes(p0));
        out
    }

    /// Appends the encoding of this message to `out`.
    pub fn encode_raw(&self, out: &mut Vec<u8>)
        ensures
            final(out)@ == old(out)@ + Self::spec_encode(self@),
    {
        let mut b = self.encode_to_vec();
        out.append(&mut b);
    }

    /// The first `k` fields of `v`, the others as a fresh message has them.
    #[verifier::opaque]
    pub open spec fn spec_prefix(v: SpecCPublishedFile_Delete_Response, k: int) -> SpecCPublishedFile_Delete_Response {
        SpecCPublishedFile_Delete_Response {}
    }

    /// Whether this message declares field number `n`.
    pub open spec fn declares(n: u32) -> bool {
        false
    }

    /// A record with a number this message does not declare is passed over: well-formed
    /// bytes decode to the same message with such a record after them as without it.
    pub proof fn lemma_unknown_field(bytes: Seq<u8>, f: SpecField)
        requires
            parse_fields(bytes) is Ok,
            field_wf(f),
            !Self::declares(f.number),
        ensures
            Self::spec_decode(bytes + field_bytes(f)) == Self::spec_decode(bytes),
    {
        reveal(CPublishedFile_Delete_Response::spec_decode);
        lemma_parse_fields_append(bytes, f);
        let fs = parse_fields(bytes).unwrap();
        let apply = Self::apply_fn();
        lemma_fold_concat(Self::spec_default(), fs, seq![f], apply);
        assert(fs.push(f) =~= fs + seq![f]);
        if let Ok(w) = fold_fields(Self::spec_default(), fs, apply) {
            lemma_fold_single(w, f, apply);
        }
        lemma_merge_run_fold(Self::spec_default(), bytes, apply);
        lemma_merge_run_fold(Self::spec_default(), bytes + field_bytes(f), apply);
    }

    /// Decoding the encoding of a message gives the message back.
    pub proof fn lemma_decode_encode(v: SpecCPublishedFile_Delete_Response)
        requires
            Self::spec_encode(v).len() <= u64::MAX,
        ensures
            Self::spec_decode(Self::spec_encode(v)) == Ok::<SpecCPublishedFile_Delete_Response, WireError>(v),
    {
        let apply = Self::apply_fn();
        let d = Self::spec_default();
        let p0 = Seq::<SpecField>::empty();
        assert(parse_fields(Self::spec_encode(v)) == Ok::<Seq<SpecField>, WireError>(p0)) by {
            reveal(CPublishedFile_Delete_Response::spec_encode);
            assert(numbers_ok(p0) && fields_wf(p0)) by {
                reveal(numbers_ok);
                reveal(fields_wf);
            }
            assert(p0 == Self::spec_fields(v));
            lemma_fields_wf_from_len(p0);
            lemma_fields_roundtrip(p0);
        }
        assert(Self::spec_prefix(v, 0) == d) by {
            reveal(CPublishedFile_Delete_Response::spec_prefix);
        }
        lemma_fold_empty(d, apply);
        assert(Self::spec_prefix(v, 0) == v) by {
            reveal(CPublishedFile_Delete_Response::spec_prefix);
        }
        lemma_merge_run_fold(d, Self::spec_encode(v), apply);
        assert(Self::spec_decode(Self::spec_encode(v)) == Ok::<SpecCPublishedFile_Delete_Response, WireError>(v)) by {
            reveal(CPublishedFile_Delete_Response::spec_decode);
        }
    }
}

/// `CPublishedFile_GetChangeHistoryEntry_Request`, as Valve's schema declares it.
#[derive(Debug, Clone, PartialEq)]
pub struct CPublishedFile_GetChangeHistoryEntry_Request {
    /// Field 1.
    pub publishedfileid: Option<u64>,
    /// Field 2.
    pub timestamp: Option<u32>,
    /// Field 3.
    pub language: Option<i32>,
}

/// What a `CPublishedFile_GetChangeHistoryEntry_Request` holds, as mathematical values.
#[verifier::ext_equal]
pub struct SpecCPublishedFile_GetChangeHistoryEntry_Request {
    pub publishedfileid: Option<u64>,
    pub timestamp: Option<u32>,
    pub language: Option<i32>,
}

impl View for CPublishedFile_GetChangeHistoryEntry_Request {
    type V = SpecCPublishedFile_GetChangeHistoryEntry_Request;

    open spec fn view(&self) -> SpecCPublishedFile_GetChangeHistoryEntry_Request {
        SpecCPublishedFile_GetChangeHistoryEntry_Request {
            publishedfileid: self.publishedfileid,
            timestamp: self.timestamp,
            language: self.language,
        }
    }
}

impl Default for CPublishedFile_GetChangeHistoryEntry_Request {
    fn default() -> (r: Self)
        ensures
            r@ == CPublishedFile_GetChangeHistoryEntry_Request::spec_default(),
    {
        CPublishedFile_GetChangeHistoryEntry_Request {
            publishedfileid: None,
            timestamp: None,
            language: None,
        }
    }
}

impl CPublishedFile_GetChangeHistoryEntry_Request {
    pub open spec fn spec_default() -> SpecCPublishedFile_GetChangeHistoryEntry_Request {
        SpecCPublishedFile_GetChangeHistoryEntry_Request {
            publishedfileid: None,
            timestamp: None,
            language: None,
        }
    }

    /// The records a `CPublishedFile_GetChangeHistoryEntry_Request` is written as, in field order.
    pub open spec fn spec_fields(v: SpecCPublishedFile_GetChangeHistoryEntry_Request) -> Seq<SpecField> {
        Seq::<SpecField>::empty()
            + opt_fixed64(1, v.publishedfileid)
            + opt_u32(2, v.timestamp)
            + opt_i32(3, v.language)
    }

    #[verifier::opaque]
    pub open spec fn spec_encode(v: SpecCPublishedFile_GetChangeHistoryEntry_Request) -> Seq<u8> {
        fields_bytes(Self::spec_fields(v))
    }

    /// What one record does to the message: a declared number sets or extends its
    /// field, any other number is left alone.
    pub open spec fn spec_apply(v: SpecCPublishedFile_GetChangeHistoryEntry_Request, f: SpecField) -> Result<SpecCPublishedFile_GetChangeHistoryEntry_Request, WireError> {
        match f.number {
            1 => match dec_fixed64(f.value) {
                Ok(x) => Ok(SpecCPublishedFile_GetChangeHistoryEntry_Request { publishedfileid: Some(x), ..v }),
                Err(e) => Err(e),
            },
            2 => match dec_u32(f.value) {
                Ok(x) => Ok(SpecCPublishedFile_GetChangeHistoryEntry_Request { timestamp: Some(x), ..v }),
                Err(e) => Err(e),
            },
            3 => match dec_i32(f.value) {
                Ok(x) => Ok(SpecCPublishedFile_GetChangeHistoryEntry_Request { language: Some(x), ..v }),
                Err(e) => Err(e),
            },
            _ => Ok(v),
        }
    }

    pub open spec fn apply_fn() -> spec_fn(SpecCPublishedFile_GetChangeHistoryEntry_Request, SpecField) -> Result<SpecCPublishedFile_GetChangeHistoryEntry_Request, WireError> {
        |v: SpecCPublishedFile_GetChangeHistoryEntry_Request, f: SpecField| Self::spec_apply(v, f)
    }

    /// The message `bytes` makes of `v`: its records applied in order, or the error
    /// that stops the reading.
    pub open spec fn spec_merge(v: SpecCPublishedFile_GetChangeHistoryEntry_Request, bytes: Seq<u8>) -> Result<SpecCPublishedFile_GetChangeHistoryEntry_Request, WireError> {
        let (w, stop) = merge_run(v, bytes, Self::apply_fn());
        match stop {
            None => Ok(w),
            Some(e) => Err(e),
        }
    }

    #[verifier::opaque]
    pub open spec fn spec_decode(bytes: Seq<u8>) -> Result<SpecCPublishedFile_GetChangeHistoryEntry_Request, WireError> {
        Self::spec_merge(Self::spec_default(), bytes)
    }

    /// This message with one record applied to it, or, when the record is refused,
    /// the message unchanged and the reason.
    fn applied(self, f: &Field) -> (r: Result<Self, (Self, WireError)>)
        ensures
            match Self::spec_apply(self@, f@) {
                Ok(v) => r matches Ok(m) && m@ == v,
                Err(e) => r matches Err((m, x)) && x == e && m@ == self@,
            },
    {
        match f.number {
            1 => match read_fixed64(&f.value) {
                Ok(x) => Ok(Self { publishedfileid: Some(x), ..self }),
                Err(e) => Err((self, e)),
            },
            2 => match read_u32(&f.value) {
                Ok(x) => Ok(Self { timestamp: Some(x), ..self }),
                Err(e) => Err((self, e)),
            },
            3 => match read_i32(&f.value) {
                Ok(x) => Ok(Self { language: Some(x), ..self }),
                Err(e) => Err((self, e)),
            },
            _ => Ok(self),
        }
    }

    /// Reads the records `bytes` holds into this message, in order. When a record does
    /// not parse or is refused, the reading stops there: the message keeps what the
    /// records before it gave, and the error is returned.
    pub fn merge(&mut self, bytes: &[u8]) -> (r: Result<(), WireError>)
        ensures
            final(self)@ == merge_run(old(self)@, bytes@, Self::apply_fn()).0,
            r == match merge_run(old(self)@, bytes@, Self::apply_fn()).1 {
                None => Ok::<(), WireError>(()),
                Some(e) => Err::<(), WireError>(e),
            },
    {
        let ghost total = merge_run(self@, bytes@, Self::apply_fn());
        let mut cur = Self::default();
        std::mem::swap(&mut cur, self);
        let mut pos: usize = 0;
        assert(bytes@.skip(0) =~= bytes@);
        while pos < bytes.len()
            invariant
                pos <= bytes@.len(),
                total == merge_run(old(self)@, bytes@, Self::apply_fn()),
                merge_run(cur@, bytes@.skip(pos as int), Self::apply_fn()) == total,
            decreases bytes@.len() - pos,
        {
            let ghost s = bytes@.skip(pos as int);
            proof {
                lemma_merge_run_step(cur@, s, Self::apply_fn());
                lemma_parse_field_len(s);
            }
            match read_field(bytes, pos) {
                Ok((f, end)) => {
                    assert(bytes@.skip(end as int) =~= s.skip((end - pos) as int));
                    match cur.applied(&f) {
                        Ok(m) => {
                            cur = m;
                        },
                        Err((m, e)) => {
                            *self = m;
                            return Err(e);
                        },
                    }
                    pos = end;
                },
                Err(e) => {
                    *self = cur;
                    return Err(e);
                },
            }
        }
        assert(bytes@.skip(pos as int) =~= Seq::<u8>::empty());
        proof {
            lemma_merge_run_empty(cur@, Self::apply_fn());
        }
        *self = cur;
        Ok(())
    }

    /// Decodes a message from its encoding.
    pub fn decode(bytes: &[u8]) -> (r: Result<Self, WireError>)
        ensures
            match Self::spec_decode(bytes@) {
                Ok(v) => r matches Ok(m) && m@ == v,
                Err(e) => r matches Err(x) && x == e,
            },
    {
        proof {
            reveal(CPublishedFile_GetChangeHistoryEntry_Request::spec_decode);
        }
        let mut m = Self::default();
        match m.merge(bytes) {
            Ok(()) => Ok(m),
            Err(e) => Err(e),
        }
    }

    /// The encoding of this message.
    pub fn encode_to_vec(&self) -> (r: Vec<u8>)
        ensures
            r@ == Self::spec_encode(self@),
    {
        let ghost v = self@;
        let mut out: Vec<u8> = Vec::new();
        let ghost p0 = Seq::<SpecField>::empty();
        put_opt_fixed64(&mut out, 1, self.publishedfileid);
        let ghost p1 = p0 + opt_fixed64(1, v.publishedfileid);
        proof {
            lemma_fields_bytes_concat(p0, opt_fixed64(1, v.publishedfileid));
        }
        put_opt_u32(&mut out, 2, self.timestamp);
        let ghost p2 = p1 + opt_u32(2, v.timestamp);
        proof {
            lemma_fields_bytes_concat(p1, opt_u32(2, v.timestamp));
        }
        put_opt_i32(&mut out, 3, self.language);
        let ghost p3 = p2 + opt_i32(3, v.language);
        proof {
            lemma_fields_bytes_concat(p2, opt_i32(3, v.language));
        }
        proof {
            reveal(CPublishedFile_GetChangeHistoryEntry_Request::spec_encode);
        }
        assert(p3 == Self::spec_fields(v));
        out
    }

    /// Appends the encoding of this message to `out`.
    pub fn encode_raw(&self, out: &mut Vec<u8>)
        ensures
            final(out)@ == old(out)@ + Self::spec_encode(self@),
    {
        let mut b = self.encode_to_vec();
        out.append(&mut b);
    }

    /// The first `k` fields of `v`, the others as a fresh message has them.
    #[verifier::opaque]
    pub open spec fn spec_prefix(v: SpecCPublishedFile_GetChangeHistoryEntry_Request, k: int) -> SpecCPublishedFile_GetChangeHistoryEntry_Request {
        SpecCPublishedFile_GetChangeHistoryEntry_Request {
            publishedfileid: if 1 <= k { v.publishedfileid } else { None },
            timestamp: if 2 <= k { v.timestamp } else { None },
            language: if 3 <= k { v.language } else { None },
        }
    }

    /// Reading field 1 back, after the fields before it.
    proof fn lemma_field_publishedfileid(v: SpecCPublishedFile_GetChangeHistoryEntry_Request)
        ensures
            fold_fields(Self::spec_prefix(v, 0), opt_fixed64(1, v.publishedfileid), Self::apply_fn())
                == Ok::<SpecCPublishedFile_GetChangeHistoryEntry_Request, WireError>(Self::spec_prefix(v, 1)),
    {
        reveal(CPublishedFile_GetChangeHistoryEntry_Request::spec_prefix);
        reveal(opt_fixed64);
        let apply = Self::apply_fn();
        let s = Self::spec_prefix(v, 0);
        lemma_fold_opt(s, 1, match v.publishedfileid { Some(x) => Some(enc_fixed64(x)), None => None }, apply);
        if let Some(x) = v.publishedfileid {
            lemma_u64_roundtrip(x);
        }
        assert(SpecCPublishedFile_GetChangeHistoryEntry_Request { publishedfileid: v.publishedfileid, ..s } == Self::spec_prefix(v, 1));
    }

    /// Reading field 2 back, after the fields before it.
    proof fn lemma_field_timestamp(v: SpecCPublishedFile_GetChangeHistoryEntry_Request)
        ensures
            fold_fields(Self::spec_prefix(v, 1), opt_u32(2, v.timestamp), Self::apply_fn())
                == Ok::<SpecCPublishedFile_GetChangeHistoryEntry_Request, WireError>(Self::spec_prefix(v, 2)),
    {
        reveal(CPublishedFile_GetChangeHistoryEntry_Request::spec_prefix);
        reveal(opt_u32);
        let apply = Self::apply_fn();
        let s = Self::spec_prefix(v, 1);
        lemma_fold_opt(s, 2, match v.timestamp { Some(x) => Some(enc_u32(x)), None => None }, apply);
        if let Some(x) = v.timestamp {
            lemma_u32_roundtrip(x);
        }
        assert(SpecCPublishedFile_GetChangeHistoryEntry_Request { timestamp: v.timestamp, ..s } == Self::spec_prefix(v, 2));
    }

    /// Reading field 3 back, after the fields before it.
    proof fn lemma_field_language(v: SpecCPublishedFile_GetChangeHistoryEntry_Request)
        ensures
            fold_fields(Self::spec_prefix(v, 2), opt_i32(3, v.language), Self::apply_fn())
                == Ok::<SpecCPublishedFile_GetChangeHistoryEntry_Request, WireError>(Self::spec_prefix(v, 3)),
    {
        reveal(CPublishedFile_GetChangeHistoryEntry_Request::spec_prefix);
        reveal(opt_i32);
        let apply = Self::apply_fn();
        let s = Self::spec_prefix(v, 2);
        lemma_fold_opt(s, 3, match v.language { Some(x) => Some(enc_i32(x)), None => None }, apply);
        if let Some(x) = v.language {
            lemma_i32_roundtrip(x);
        }
        assert(SpecCPublishedFile_GetChangeHistoryEntry_Request { language: v.language, ..s } == Self::spec_prefix(v, 3));
    }

    /// Whether this message declares field number `n`.
    pub open spec fn declares(n: u32) -> bool {
        n == 1 || n == 2 || n == 3
    }

    /// A record with a number this message does not declare is passed over: well-formed
    /// bytes decode to the same message with such a record after them as without it.
    pub proof fn lemma_unknown_field(bytes: Seq<u8>, f: SpecField)
        requires
            parse_fields(bytes) is Ok,
            field_wf(f),
            !Self::declares(f.number),
        ensures
            Self::spec_decode(bytes + field_bytes(f)) == Self::spec_decode(bytes),
    {
        reveal(CPublishedFile_GetChangeHistoryEntry_Request::spec_decode);
        lemma_parse_fields_append(bytes, f);
        let fs = parse_fields(bytes).unwrap();
        let apply = Self::apply_fn();
        lemma_fold_concat(Self::spec_default(), fs, seq![f], apply);
        assert(fs.push(f) =~= fs + seq![f]);
        if let Ok(w) = fold_fields(Self::spec_default(), fs, apply) {
            lemma_fold_single(w, f, apply);
        }
        lemma_merge_run_fold(Self::spec_default(), bytes, apply);
        lemma_merge_run_fold(Self::spec_default(), bytes + field_bytes(f), apply);
    }

    /// Decoding the encoding of a message gives the message back.
    pub proof fn lemma_decode_encode(v: SpecCPublishedFile_GetChangeHistoryEntry_Request)
        requires
            Self::spec_encode(v).len() <= u64::MAX,
        ensures
            Self::spec_decode(Self::spec_encode(v)) == Ok::<SpecCPublishedFile_GetChangeHistoryEntry_Request, WireError>(v),
    {
        let apply = Self::apply_fn();
        let d = Self::spec_default();
        let p0 = Seq::<SpecField>::empty();
        let l1 = opt_fixed64(1, v.publishedfileid);
        let p1 = p0 + l1;
        let l2 = opt_u32(2, v.timestamp);
        let p2 = p1 + l2;
        let l3 = opt_i32(3, v.language);
        let p3 = p2 + l3;
        assert(parse_fields(Self::spec_encode(v)) == Ok::<Seq<SpecField>, WireError>(p3)) by {
            reveal(CPublishedFile_GetChangeHistoryEntry_Request::spec_encode);
            assert(numbers_ok(p0) && fields_wf(p0)) by {
                reveal(numbers_ok);
                reveal(fields_wf);
            }
            lemma_opt_fixed64_numbered(1, v.publishedfileid);
            lemma_fields_wf_concat(p0, l1);
            lemma_opt_u32_numbered(2, v.timestamp);
            lemma_fields_wf_concat(p1, l2);
            lemma_opt_i32_numbered(3, v.language);
            lemma_fields_wf_concat(p2, l3);
            assert(p3 == Self::spec_fields(v));
            lemma_fields_wf_from_len(p3);
            lemma_fields_roundtrip(p3);
        }
        assert(Self::spec_prefix(v, 0) == d) by {
            reveal(CPublishedFile_GetChangeHistoryEntry_Request::spec_prefix);
        }
        lemma_fold_empty(d, apply);
        lemma_fold_concat(d, p0, l1, apply);
        Self::lemma_field_publishedfileid(v);
        lemma_fold_concat(d, p1, l2, apply);
        Self::lemma_field_timestamp(v);
        lemma_fold_concat(d, p2, l3, apply);
        Self::lemma_field_language(v);
        assert(Self::spec_prefix(v, 3) == v) by {
            reveal(CPublishedFile_GetChangeHistoryEntry_Request::spec_prefix);
        }
        lemma_merge_run_fold(d, Self::spec_encode(v), apply);
        assert(Self::spec_decode(Self::spec_encode(v)) == Ok::<SpecCPublishedFile_GetChangeHistoryEntry_Request, WireError>(v)) by {
            reveal(CPublishedFile_GetChangeHistoryEntry_Request::spec_decode);
        }
    }
}

/// `CPublishedFile_GetChangeHistoryEntry_Response`, as Valve's schema declares it.
#[derive(Debug, Clone, PartialEq)]
pub struct CPublishedFile_GetChangeHistoryEntry_Response {
    /// Field 1.
    pub change_description: Option<String>,
    /// Field 2.
    pub language: Option<i32>,
    /// Field 3.
    pub saved_snapshot: Option<bool>,
    /// Field 4.
    pub snapshot_game_branch_min: Option<String>,
    /// Field 5.
    pub snapshot_game_branch_max: Option<String>,
    /// Field 6.
    pub manifest_id: Option<u64>,
    /// Field 7.
    pub accountid: Option<u32>,
}

/// What a `CPublishedFile_GetChangeHistoryEntry_Response` holds, as mathematical values.
#[verifier::ext_equal]
pub struct SpecCPublishedFile_GetChangeHistoryEntry_Response {
    pub change_description: Option<Seq<char>>,
    pub language: Option<i32>,
    pub saved_snapshot: Option<bool>,
    pub snapshot_game_branch_min: Option<Seq<char>>,
    pub snapshot_game_branch_max: Option<Seq<char>>,
    pub manifest_id: Option<u64>,
    pub accountid: Option<u32>,
}

impl View for CPublishedFile_GetChangeHistoryEntry_Response {
    type V = SpecCPublishedFile_GetChangeHistoryEntry_Response;

    open spec fn view(&self) -> SpecCPublishedFile_GetChangeHistoryEntry_Response {
        SpecCPublishedFile_GetChangeHistoryEntry_Response {
            change_description: opt_string_view(self.change_description),
            language: self.language,
            saved_snapshot: self.saved_snapshot,
            snapshot_game_branch_min: opt_string_view(self.snapshot_game_branch_min),
            snapshot_game_branch_max: opt_string_view(self.snapshot_game_branch_max),
            manifest_id: self.manifest_id,
            accountid: self.accountid,
        }
    }
}

impl Default for CPublishedFile_GetChangeHistoryEntry_Response {
    fn default() -> (r: Self)
        ensures
            r@ == CPublishedFile_GetChangeHistoryEntry_Response::spec_default(),
    {
        CPublishedFile_GetChangeHistoryEntry_Response {
            change_description: None,
            language: None,
            saved_snapshot: None,
            snapshot_game_branch_min: None,
            snapshot_game_branch_max: None,
            manifest_id: None,
            accountid: None,
        }
    }
}

impl CPublishedFile_GetChangeHistoryEntry_Response {
    pub open spec fn spec_default() -> SpecCPublishedFile_GetChangeHistoryEntry_Response {
        SpecCPublishedFile_GetChangeHistoryEntry_Response {
            change_description: None,
            language: None,
            saved_snapshot: None,
            snapshot_game_branch_min: None,
            snapshot_game_branch_max: None,
            manifest_id: None,
            accountid: None,
        }
    }

    /// The records a `CPublishedFile_GetChangeHistoryEntry_Response` is written as, in field order.
    pub open spec fn spec_fields(v: SpecCPublishedFile_GetChangeHistoryEntry_Response) -> Seq<SpecField> {
        Seq::<SpecField>::empty()
            + opt_string(1, v.change_description)
            + opt_i32(2, v.language)
            + opt_bool(3, v.saved_snapshot)
            + opt_string(4, v.snapshot_game_branch_min)
            + opt_string(5, v.snapshot_game_branch_max)
            + opt_fixed64(6, v.manifest_id)
            + opt_u32(7, v.accountid)
    }

    #[verifier::opaque]
    pub open spec fn spec_encode(v: SpecCPublishedFile_GetChangeHistoryEntry_Response) -> Seq<u8> {
        fields_bytes(Self::spec_fields(v))
    }

    /// What one record does to the message: a declared number sets or extends its
    /// field, any other number is left alone.
    pub open spec fn spec_apply(v: SpecCPublishedFile_GetChangeHistoryEntry_Response, f: SpecField) -> Result<SpecCPublishedFile_GetChangeHistoryEntry_Response, WireError> {
        match f.number {
            1 => match dec_string(f.value) {
                Ok(x) => Ok(SpecCPublishedFile_GetChangeHistoryEntry_Response { change_description: Some(x), ..v }),
                Err(e) => Err(e),
            },
            2 => match dec_i32(f.value) {
                Ok(x) => Ok(SpecCPublishedFile_GetChangeHistoryEntry_Response { language: Some(x), ..v }),
                Err(e) => Err(e),
            },
            3 => match dec_bool(f.value) {
                Ok(x) => Ok(SpecCPublishedFile_GetChangeHistoryEntry_Response { saved_snapshot: Some(x), ..v }),
                Err(e) => Err(e),
            },
            4 => match dec_string(f.value) {
                Ok(x) => Ok(SpecCPublishedFile_GetChangeHistoryEntry_Response { snapshot_game_branch_min: Some(x), ..v }),
                Err(e) => Err(e),
            },
            5 => match dec_string(f.value) {
                Ok(x) => Ok(SpecCPublishedFile_GetChangeHistoryEntry_Response { snapshot_game_branch_max: Some(x), ..v }),
                Err(e) => Err(e),
            },
            6 => match dec_fixed64(f.value) {
                Ok(x) => Ok(SpecCPublishedFile_GetChangeHistoryEntry_Response { manifest_id: Some(x), ..v }),
                Err(e) => Err(e),
            },
            7 => match dec_u32(f.value) {
                Ok(x) => Ok(SpecCPublishedFile_GetChangeHistoryEntry_Response { accountid: Some(x), ..v }),
                Err(e) => Err(e),
            },
            _ => Ok(v),
        }
    }

    pub open spec fn apply_fn() -> spec_fn(SpecCPublishedFile_GetChangeHistoryEntry_Response, SpecField) -> Result<SpecCPublishedFile_GetChangeHistoryEntry_Response, WireError> {
        |v: SpecCPublishedFile_GetChangeHistoryEntry_Response, f: SpecField| Self::spec_apply(v, f)
    }

    /// The message `bytes` makes of `v`: its records applied in order, or the error
    /// that stops the reading.
    pub open spec fn spec_merge(v: SpecCPublishedFile_GetChangeHistoryEntry_Response, bytes: Seq<u8>) -> Result<SpecCPublishedFile_GetChangeHistoryEntry_Response, WireError> {
        let (w, stop) = merge_run(v, bytes, Self::apply_fn());
        match stop {
            None => Ok(w),
            Some(e) => Err(e),
        }
    }

    #[verifier::opaque]
    pub open spec fn spec_decode(bytes: Seq<u8>) -> Result<SpecCPublishedFile_GetChangeHistoryEntry_Response, WireError> {
        Self::spec_merge(Self::spec_default(), bytes)
    }

    /// This message with one record applied to it, or, when the record is refused,
    /// the message unchanged and the reason.
    fn applied(self, f: &Field) -> (r: Result<Self, (Self, WireError)>)
        ensures
            match Self::spec_apply(self@, f@) {
                Ok(v) => r matches Ok(m) && m@ == v,
                Err(e) => r matches Err((m, x)) && x == e && m@ == self@,
            },
    {
        match f.number {
            1 => match read_string(&f.value) {
                Ok(x) => Ok(Self { change_description: Some(x), ..self }),
                Err(e) => Err((self, e)),
            },
            2 => match read_i32(&f.value) {
                Ok(x) => Ok(Self { language: Some(x), ..self }),
                Err(e) => Err((self, e)),
            },
            3 => match read_bool(&f.value) {
                Ok(x) => Ok(Self { saved_snapshot: Some(x), ..self }),
                Err(e) => Err((self, e)),
            },
            4 => match read_string(&f.value) {
                Ok(x) => Ok(Self { snapshot_game_branch_min: Some(x), ..self }),
                Err(e) => Err((self, e)),
            },
            5 => match read_string(&f.value) {
                Ok(x) => Ok(Self { snapshot_game_branch_max: Some(x), ..self }),
                Err(e) => Err((self, e)),
            },
            6 => match read_fixed64(&f.value) {
                Ok(x) => Ok(Self { manifest_id: Some(x), ..self }),
                Err(e) => Err((self, e)),
            },
            7 => match read_u32(&f.value) {
                Ok(x) => Ok(Self { accountid: Some(x), ..self }),
                Err(e) => Err((self, e)),
            },
            _ => Ok(self),
        }
    }

    /// Reads the records `bytes` holds into this message, in order. When a record does
    /// not parse or is refused, the reading stops there: the message keeps what the
    /// records before it gave, and the error is returned.
    pub fn merge(&mut self, bytes: &[u8]) -> (r: Result<(), WireError>)
        ensures
            final(self)@ == merge_run(old(self)@, bytes@, Self::apply_fn()).0,
            r == match merge_run(old(self)@, bytes@, Self::apply_fn()).1 {
                None => Ok::<(), WireError>(()),
                Some(e) => Err::<(), WireError>(e),
            },
    {
        let ghost total = merge_run(self@, bytes@, Self::apply_fn());
        let mut cur = Self::default();
        std::mem::swap(&mut cur, self);
        let mut pos: usize = 0;
        assert(bytes@.skip(0) =~= bytes@);
        while pos < bytes.len()
            invariant
                pos <= bytes@.len(),
                total == merge_run(old(self)@, bytes@, Self::apply_fn()),
                merge_run(cur@, bytes@.skip(pos as int), Self::apply_fn()) == total,
            decreases bytes@.len() - pos,
        {
            let ghost s = bytes@.skip(pos as int);
            proof {
                lemma_merge_run_step(cur@, s, Self::apply_fn());
                lemma_parse_field_len(s);
            }
            match read_field(bytes, pos) {
                Ok((f, end)) => {
                    assert(bytes@.skip(end as int) =~= s.skip((end - pos) as int));
                    match cur.applied(&f) {
                        Ok(m) => {
                            cur = m;
                        },
                        Err((m, e)) => {
                            *self = m;
                            return Err(e);
                        },
                    }
                    pos = end;
                },
                Err(e) => {
                    *self = cur;
                    return Err(e);
                },
            }
        }
        assert(bytes@.skip(pos as int) =~= Seq::<u8>::empty());
        proof {
            lemma_merge_run_empty(cur@, Self::apply_fn());
        }
        *self = cur;
        Ok(())
    }

    /// Decodes a message from its encoding.
    pub fn decode(bytes: &[u8]) -> (r: Result<Self, WireError>)
        ensures
            match Self::spec_decode(bytes@) {
                Ok(v) => r matches Ok(m) && m@ == v,
                Err(e) => r matches Err(x) && x == e,
            },
    {
        proof {
            reveal(CPublishedFile_GetChangeHistoryEntry_Response::spec_decode);
        }
        let mut m = Self::default();
        match m.merge(bytes) {
            Ok(()) => Ok(m),
            Err(e) => Err(e),
        }
    }

    /// The encoding of this message.
    pub fn encode_to_vec(&self) -> (r: Vec<u8>)
        ensures
            r@ == Self::spec_encode(self@),
    {
        let ghost v = self@;
        let mut out: Vec<u8> = Vec::new();
        let ghost p0 = Seq::<SpecField>::empty();
        put_opt_string(&mut out, 1, &self.change_description);
        let ghost p1 = p0 + opt_string(1, v.change_description);
        proof {
            lemma_fields_bytes_concat(p0, opt_string(1, v.change_description));
        }
        put_opt_i32(&mut out, 2, self.language);
        let ghost p2 = p1 + opt_i32(2, v.language);
        proof {
            lemma_fields_bytes_concat(p1, opt_i32(2, v.language));
        }
        put_opt_bool(&mut out, 3, self.saved_snapshot);
        let ghost p3 = p2 + opt_bool(3, v.saved_snapshot);
        proof {
            lemma_fields_bytes_concat(p2, opt_bool(3, v.saved_snapshot));
        }
        put_opt_string(&mut out, 4, &self.snapshot_game_branch_min);
        let ghost p4 = p3 + opt_string(4, v.snapshot_game_branch_min);
        proof {
            lemma_fields_bytes_concat(p3, opt_string(4, v.snapshot_game_branch_min));
        }
        put_opt_string(&mut out, 5, &self.snapshot_game_branch_max);
        let ghost p5 = p4 + opt_string(5, v.snapshot_game_branch_max);
        proof {
            lemma_fields_bytes_concat(p4, opt_string(5, v.snapshot_game_branch_max));
        }
        put_opt_fixed64(&mut out, 6, self.manifest_id);
        let ghost p6 = p5 + opt_fixed64(6, v.manifest_id);
        proof {
            lemma_fields_bytes_concat(p5, opt_fixed64(6, v.manifest_id));
        }
        put_opt_u32(&mut out, 7, self.accountid);
        let ghost p7 = p6 + opt_u32(7, v.accountid);
        proof {
            lemma_fields_bytes_concat(p6, opt_u32(7, v.accountid));
        }
        proof {
            reveal(CPublishedFile_GetChangeHistoryEntry_Response::spec_encode);
        }
        assert(p7 == Self::spec_fields(v));
        out
    }

    /// Appends the encoding of this message to `out`.
    pub fn encode_raw(&self, out: &mut Vec<u8>)
        ensures
            final(out)@ == old(out)@ + Self::spec_encode(self@),
    {
        let mut b = self.encode_to_vec();
        out.append(&mut b);
    }

    /// The first `k` fields of `v`, the others as a fresh message has them.
    #[verifier::opaque]
    pub open spec fn spec_prefix(v: SpecCPublishedFile_GetChangeHistoryEntry_Response, k: int) -> SpecCPublishedFile_GetChangeHistoryEntry_Response {
        SpecCPublishedFile_GetChangeHistoryEntry_Response {
            change_description: if 1 <= k { v.change_description } else { None },
            language: if 2 <= k { v.language } else { None },
            saved_snapshot: if 3 <= k { v.saved_snapshot } else { None },
            snapshot_game_branch_min: if 4 <= k { v.snapshot_game_branch_min } else { None },
            snapshot_game_branch_max: if 5 <= k { v.snapshot_game_branch_max } else { None },
            manifest_id: if 6 <= k { v.manifest_id } else { None },
            accountid: if 7 <= k { v.accountid } else { None },
        }
    }

    /// Reading field 1 back, after the fields before it.
    proof fn lemma_field_change_description(v: SpecCPublishedFile_GetChangeHistoryEntry_Response)
        ensures
            fold_fields(Self::spec_prefix(v, 0), opt_string(1, v.change_description), Self::apply_fn())
                == Ok::<SpecCPublishedFile_GetChangeHistoryEntry_Response, WireError>(Self::spec_prefix(v, 1)),
    {
        reveal(CPublishedFile_GetChangeHistoryEntry_Response::spec_prefix);
        reveal(opt_string);
        let apply = Self::apply_fn();
        let s = Self::spec_prefix(v, 0);
        lemma_fold_opt(s, 1, match v.change_description { Some(x) => Some(enc_string(x)), None => None }, apply);
        if let Some(x) = v.change_description {
            lemma_string_roundtrip(x);
        }
        assert(SpecCPublishedFile_GetChangeHistoryEntry_Response { change_description: v.change_description, ..s } == Self::spec_prefix(v, 1));
    }

    /// Reading field 2 back, after the fields before it.
    proof fn lemma_field_language(v: SpecCPublishedFile_GetChangeHistoryEntry_Response)
        ensures
            fold_fields(Self::spec_prefix(v, 1), opt_i32(2, v.language), Self::apply_fn())
                == Ok::<SpecCPublishedFile_GetChangeHistoryEntry_Response, WireError>(Self::spec_prefix(v, 2)),
    {
        reveal(CPublishedFile_GetChangeHistoryEntry_Response::spec_prefix);
        reveal(opt_i32);
        let apply = Self::apply_fn();
        let s = Self::spec_prefix(v, 1);
        lemma_fold_opt(s, 2, match v.language { Some(x) => Some(enc_i32(x)), None => None }, apply);
        if let Some(x) = v.language {
            lemma_i32_roundtrip(x);
        }
        assert(SpecCPublishedFile_GetChangeHistoryEntry_Response { language: v.language, ..s } == Self::spec_prefix(v, 2));
    }

    /// Reading field 3 back, after the fields before it.
    proof fn lemma_field_saved_snapshot(v: SpecCPublishedFile_GetChangeHistoryEntry_Response)
        ensures
            fold_fields(Self::spec_prefix(v, 2), opt_bool(3, v.saved_snapshot), Self::apply_fn())
                == Ok::<SpecCPublishedFile_GetChangeHistoryEntry_Response, WireError>(Self::spec_prefix(v, 3)),
    {
        reveal(CPublishedFile_GetChangeHistoryEntry_Response::spec_prefix);
        reveal(opt_bool);
        let apply = Self::apply_fn();
        let s = Self::spec_prefix(v, 2);
        lemma_fold_opt(s, 3, match v.saved_snapshot { Some(x) => Some(enc_bool(x)), None => None }, apply);
        assert(SpecCPublishedFile_GetChangeHistoryEntry_Response { saved_snapshot: v.saved_snapshot, ..s } == Self::spec_prefix(v, 3));
    }

    /// Reading field 4 back, after the fields before it.
    proof fn lemma_field_snapshot_game_branch_min(v: SpecCPublishedFile_GetChangeHistoryEntry_Response)
        ensures
            fold_fields(Self::spec_prefix(v, 3), opt_string(4, v.snapshot_game_branch_min), Self::apply_fn())
                == Ok::<SpecCPublishedFile_GetChangeHistoryEntry_Response, WireError>(Self::spec_prefix(v, 4)),
    {
        reveal(CPublishedFile_GetChangeHistoryEntry_Response::spec_prefix);
        reveal(opt_string);
        let apply = Self::apply_fn();
        let s = Self::spec_prefix(v, 3);
        lemma_fold_opt(s, 4, match v.snapshot_game_branch_min { Some(x) => Some(enc_string(x)), None => None }, apply);
        if let Some(x) = v.snapshot_game_branch_min {
            lemma_string_roundtrip(x);
        }
        assert(SpecCPublishedFile_GetChangeHistoryEntry_Response { snapshot_game_branch_min: v.snapshot_game_branch_min, ..s } == Self::spec_prefix(v, 4));
    }

    /// Reading field 5 back, after the fields before it.
    proof fn lemma_field_snapshot_game_branch_max(v: SpecCPublishedFile_GetChangeHistoryEntry_Response)
        ensures
            fold_fields(Self::spec_prefix(v, 4), opt_string(5, v.snapshot_game_branch_max), Self::apply_fn())
                == Ok::<SpecCPublishedFile_GetChangeHistoryEntry_Response, WireError>(Self::spec_prefix(v, 5)),
    {
        reveal(CPublishedFile_GetChangeHistoryEntry_Response::spec_prefix);
        reveal(opt_string);
        let apply = Self::apply_fn();
        let s = Self::spec_prefix(v, 4);
        lemma_fold_opt(s, 5, match v.snapshot_game_branch_max { Some(x) => Some(enc_string(x)), None => None }, apply);
        if let Some(x) = v.snapshot_game_branch_max {
            lemma_string_roundtrip(x);
        }
        assert(SpecCPublishedFile_GetChangeHistoryEntry_Response { snapshot_game_branch_max: v.snapshot_game_branch_max, ..s } == Self::spec_prefix(v, 5));
    }

    /// Reading field 6 back, after the fields before it.
    proof fn lemma_field_manifest_id(v: SpecCPublishedFile_GetChangeHistoryEntry_Response)
        ensures
            fold_fields(Self::spec_prefix(v, 5), opt_fixed64(6, v.manifest_id), Self::apply_fn())
                == Ok::<SpecCPublishedFile_GetChangeHistoryEntry_Response, WireError>(Self::spec_prefix(v, 6)),
    {
        reveal(CPublishedFile_GetChangeHistoryEntry_Response::spec_prefix);
        reveal(opt_fixed64);
        let apply = Self::apply_fn();
        let s = Self::spec_prefix(v, 5);
        lemma_fold_opt(s, 6, match v.manifest_id { Some(x) => Some(enc_fixed64(x)), None => None }, apply);
        if let Some(x) = v.manifest_id {
            lemma_u64_roundtrip(x);
        }
        assert(SpecCPublishedFile_GetChangeHistoryEntry_Response { manifest_id: v.manifest_id, ..s } == Self::spec_prefix(v, 6));
    }

    /// Reading field 7 back, after the fields before it.
    proof fn lemma_field_accountid(v: SpecCPublishedFile_GetChangeHistoryEntry_Response)
        ensures
            fold_fields(Self::spec_prefix(v, 6), opt_u32(7, v.accountid), Self::apply_fn())
                == Ok::<SpecCPublishedFile_GetChangeHistoryEntry_Response, WireError>(Self::spec_prefix(v, 7)),
    {
        reveal(CPublishedFile_GetChangeHistoryEntry_Response::spec_prefix);
        reveal(opt_u32);
        let apply = Self::apply_fn();
        let s = Self::spec_prefix(v, 6);
        lemma_fold_opt(s, 7, match v.accountid { Some(x) => Some(enc_u32(x)), None => None }, apply);
        if let Some(x) = v.accountid {
            lemma_u32_roundtrip(x);
        }
        assert(SpecCPublishedFile_GetChangeHistoryEntry_Response { accountid: v.accountid, ..s } == Self::spec_prefix(v, 7));
    }

    /// Whether this message declares field number `n`.
    pub open spec fn declares(n: u32) -> bool {
        n == 1 || n == 2 || n == 3 || n == 4 || n == 5 || n == 6 || n == 7
    }

    /// A record with a number this message does not declare is passed over: well-formed
    /// bytes decode to the same message with such a record after them as without it.
    pub proof fn lemma_unknown_field(bytes: Seq<u8>, f: SpecField)
        requires
            parse_fields(bytes) is Ok,
            field_wf(f),
            !Self::declares(f.number),
        ensures
            Self::spec_decode(bytes + field_bytes(f)) == Self::spec_decode(bytes),
    {
        reveal(CPublishedFile_GetChangeHistoryEntry_Response::spec_decode);
        lemma_parse_fields_append(bytes, f);
        let fs = parse_fields(bytes).unwrap();
        let apply = Self::apply_fn();
        lemma_fold_concat(Self::spec_default(), fs, seq![f], apply);
        assert(fs.push(f) =~= fs + seq![f]);
        if let Ok(w) = fold_fields(Self::spec_default(), fs, apply) {
            lemma_fold_single(w, f, apply);
        }
        lemma_merge_run_fold(Self::spec_default(), bytes, apply);
        lemma_merge_run_fold(Self::spec_default(), bytes + field_bytes(f), apply);
    }

    /// Decoding the encoding of a message gives the message back.
    pub proof fn lemma_decode_encode(v: SpecCPublishedFile_GetChangeHistoryEntry_Response)
        requires
            Self::spec_encode(v).len() <= u64::MAX,
        ensures
            Self::spec_decode(Self::spec_encode(v)) == Ok::<SpecCPublishedFile_GetChangeHistoryEntry_Response, WireError>(v),
    {
        let apply = Self::apply_fn();
        let d = Self::spec_default();
        let p0 = Seq::<SpecField>::empty();
        let l1 = opt_string(1, v.change_description);
        let p1 = p0 + l1;
        let l2 = opt_i32(2, v.language);
        let p2 = p1 + l2;
        let l3 = opt_bool(3, v.saved_snapshot);
        let p3 = p2 + l3;
        let l4 = opt_string(4, v.snapshot_game_branch_min);
        let p4 = p3 + l4;
        let l5 = opt_string(5, v.snapshot_game_branch_max);
        let p5 = p4 + l5;
        let l6 = opt_fixed64(6, v.manifest_id);
        let p6 = p5 + l6;
        let l7 = opt_u32(7, v.accountid);
        let p7 = p6 + l7;
        assert(parse_fields(Self::spec_encode(v)) == Ok::<Seq<SpecField>, WireError>(p7)) by {
            reveal(CPublishedFile_GetChangeHistoryEntry_Response::spec_encode);
            assert(numbers_ok(p0) && fields_wf(p0)) by {
                reveal(numbers_ok);
                reveal(fields_wf);
            }
            lemma_opt_string_numbered(1, v.change_description);
            lemma_fields_wf_concat(p0, l1);
            lemma_opt_i32_numbered(2, v.language);
            lemma_fields_wf_concat(p1, l2);
            lemma_opt_bool_numbered(3, v.saved_snapshot);
            lemma_fields_wf_concat(p2, l3);
            lemma_opt_string_numbered(4, v.snapshot_game_branch_min);
            lemma_fields_wf_concat(p3, l4);
            lemma_opt_string_numbered(5, v.snapshot_game_branch_max);
            lemma_fields_wf_concat(p4, l5);
            lemma_opt_fixed64_numbered(6, v.manifest_id);
            lemma_fields_wf_concat(p5, l6);
            lemma_opt_u32_numbered(7, v.accountid);
            lemma_fields_wf_concat(p6, l7);
            assert(p7 == Self::spec_fields(v));
            lemma_fields_wf_from_len(p7);
            lemma_fields_roundtrip(p7);
        }
        assert(Self::spec_prefix(v, 0) == d) by {
            reveal(CPublishedFile_GetChangeHistoryEntry_Response::spec_prefix);
        }
        lemma_fold_empty(d, apply);
        lemma_fold_concat(d, p0, l1, apply);
        Self::lemma_field_change_description(v);
        lemma_fold_concat(d, p1, l2, apply);
        Self::lemma_field_language(v);
        lemma_fold_concat(d, p2, l3, apply);
        Self::lemma_field_saved_snapshot(v);
        lemma_fold_concat(d, p3, l4, apply);
        Self::lemma_field_snapshot_game_branch_min(v);
        lemma_fold_concat(d, p4, l5, apply);
        Self::lemma_field_snapshot_game_branch_max(v);
        lemma_fold_concat(d, p5, l6, apply);
        Self::lemma_field_manifest_id(v);
        lemma_fold_concat(d, p6, l7, apply);
        Self::lemma_field_accountid(v);
        assert(Self::spec_prefix(v, 7) == v) by {
            reveal(CPublishedFile_GetChangeHistoryEntry_Response::spec_prefix);
        }
        lemma_merge_run_fold(d, Self::spec_encode(v), apply);
        assert(Self::spec_decode(Self::spec_encode(v)) == Ok::<SpecCPublishedFile_GetChangeHistoryEntry_Response, WireError>(v)) by {
            reveal(CPublishedFile_GetChangeHistoryEntry_Response::spec_decode);
        }
    }
}

/// `CPublishedFile_GetChangeHistory_Request`, as Valve's schema declares it.
#[derive(Debug, Clone, PartialEq)]
pub struct CPublishedFile_GetChangeHistory_Request {
    /// Field 1.
    pub publishedfileid: Option<u64>,
    /// Field 2.
    pub total_only: Option<bool>,
    /// Field 3.
    pub startindex: Option<u32>,
    /// Field 4.
    pub count: Option<u32>,
    /// Field 5.
    pub language: Option<i32>,
}

/// What a `CPublishedFile_GetChangeHistory_Request` holds, as mathematical values.
#[verifier::ext_equal]
pub struct SpecCPublishedFile_GetChangeHistory_Request {
    pub publishedfileid: Option<u64>,
    pub total_only: Option<bool>,
    pub startindex: Option<u32>,
    pub count: Option<u32>,
    pub language: Option<i32>,
}

impl View for CPublishedFile_GetChangeHistory_Request {
    type V = SpecCPublishedFile_GetChangeHistory_Request;

    open spec fn view(&self) -> SpecCPublishedFile_GetChangeHistory_Request {
        SpecCPublishedFile_GetChangeHistory_Request {
            publishedfileid: self.publishedfileid,
            total_only: self.total_only,
            startindex: self.startindex,
            count: self.count,
            language: self.language,
        }
    }
}

impl Default for CPublishedFile_GetChangeHistory_Request {
    fn default() -> (r: Self)
        ensures
            r@ == CPublishedFile_GetChangeHistory_Request::spec_default(),
    {
        CPublishedFile_GetChangeHistory_Request {
            publishedfileid: None,
            total_only: None,
            startindex: None,
            count: None,
            language: None,
        }
    }
}

impl CPublishedFile_GetChangeHistory_Request {
    /// Field 5, or its schema default when absent.
    pub fn language_or_default(&self) -> (r: i32)
        ensures
            r == match self.language {
                Some(x) => x,
                None => 0i32,
            },
    {
        self.language.unwrap_or(0i32)
    }

    pub open spec fn spec_default() -> SpecCPublishedFile_GetChangeHistory_Request {
        SpecCPublishedFile_GetChangeHistory_Request {
            publishedfileid: None,
            total_only: None,
            startindex: None,
            count: None,
            language: None,
        }
    }

    /// The records a `CPublishedFile_GetChangeHistory_Request` is written as, in field order.
    pub open spec fn spec_fields(v: SpecCPublishedFile_GetChangeHistory_Request) -> Seq<SpecField> {
        Seq::<SpecField>::empty()
            + opt_fixed64(1, v.publishedfileid)
            + opt_bool(2, v.total_only)
            + opt_u32(3, v.startindex)
            + opt_u32(4, v.count)
            + opt_i32(5, v.language)
    }

    #[verifier::opaque]
    pub open spec fn spec_encode(v: SpecCPublishedFile_GetChangeHistory_Request) -> Seq<u8> {
        fields_bytes(Self::spec_fields(v))
    }

    /// What one record does to the message: a declared number sets or extends its
    /// field, any other number is left alone.
    pub open spec fn spec_apply(v: SpecCPublishedFile_GetChangeHistory_Request, f: SpecField) -> Result<SpecCPublishedFile_GetChangeHistory_Request, WireError> {
        match f.number {
            1 => match dec_fixed64(f.value) {
                Ok(x) => Ok(SpecCPublishedFile_GetChangeHistory_Request { publishedfileid: Some(x), ..v }),
                Err(e) => Err(e),
            },
            2 => match dec_bool(f.value) {
                Ok(x) => Ok(SpecCPublishedFile_GetChangeHistory_Request { total_only: Some(x), ..v }),
                Err(e) => Err(e),
            },
            3 => match dec_u32(f.value) {
                Ok(x) => Ok(SpecCPublishedFile_GetChangeHistory_Request { startindex: Some(x), ..v }),
                Err(e) => Err(e),
            },
            4 => match dec_u32(f.value) {
                Ok(x) => Ok(SpecCPublishedFile_GetChangeHistory_Request { count: Some(x), ..v }),
                Err(e) => Err(e),
            },
            5 => match dec_i32(f.value) {
                Ok(x) => Ok(SpecCPublishedFile_GetChangeHistory_Request { language: Some(x), ..v }),
                Err(e) => Err(e),
            },
            _ => Ok(v),
        }
    }

    pub open spec fn apply_fn() -> spec_fn(SpecCPublishedFile_GetChangeHistory_Request, SpecField) -> Result<SpecCPublishedFile_GetChangeHistory_Request, WireError> {
        |v: SpecCPublishedFile_GetChangeHistory_Request, f: SpecField| Self::spec_apply(v, f)
    }

    /// The message `bytes` makes of `v`: its records applied in order, or the error
    /// that stops the reading.
    pub open spec fn spec_merge(v: SpecCPublishedFile_GetChangeHistory_Request, bytes: Seq<u8>) -> Result<SpecCPublishedFile_GetChangeHistory_Request, WireError> {
        let (w, stop) = merge_run(v, bytes, Self::apply_fn());
        match stop {
            None => Ok(w),
            Some(e) => Err(e),
        }
    }

    #[verifier::opaque]
    pub open spec fn spec_decode(bytes: Seq<u8>) -> Result<SpecCPublishedFile_GetChangeHistory_Request, WireError> {
        Self::spec_merge(Self::spec_default(), bytes)
    }

    /// This message with one record applied to it, or, when the record is refused,
    /// the message unchanged and the reason.
    fn applied(self, f: &Field) -> (r: Result<Self, (Self, WireError)>)
        ensures
            match Self::spec_apply(self@, f@) {
                Ok(v) => r matches Ok(m) && m@ == v,
                Err(e) => r matches Err((m, x)) && x == e && m@ == self@,
            },
    {
        match f.number {
            1 => match read_fixed64(&f.value) {
                Ok(x) => Ok(Self { publishedfileid: Some(x), ..self }),
                Err(e) => Err((self, e)),
            },
            2 => match read_bool(&f.value) {
                Ok(x) => Ok(Self { total_only: Some(x), ..self }),
                Err(e) => Err((self, e)),
            },
            3 => match read_u32(&f.value) {
                Ok(x) => Ok(Self { startindex: Some(x), ..self }),
                Err(e) => Err((self, e)),
            },
            4 => match read_u32(&f.value) {
                Ok(x) => Ok(Self { count: Some(x), ..self }),
                Err(e) => Err((self, e)),
            },
            5 => match read_i32(&f.value) {
                Ok(x) => Ok(Self { language: Some(x), ..self }),
                Err(e) => Err((self, e)),
            },
            _ => Ok(self),
        }
    }

    /// Reads the records `bytes` holds into this message, in order. When a record does
    /// not parse or is refused, the reading stops there: the message keeps what the
    /// records before it gave, and the error is returned.
    pub fn merge(&mut self, bytes: &[u8]) -> (r: Result<(), WireError>)
        ensures
            final(self)@ == merge_run(old(self)@, bytes@, Self::apply_fn()).0,
            r == match merge_run(old(self)@, bytes@, Self::apply_fn()).1 {
                None => Ok::<(), WireError>(()),
                Some(e) => Err::<(), WireError>(e),
            },
    {
        let ghost total = merge_run(self@, bytes@, Self::apply_fn());
        let mut cur = Self::default();
        std::mem::swap(&mut cur, self);
        let mut pos: usize = 0;
        assert(bytes@.skip(0) =~= bytes@);
        while pos < bytes.len()
            invariant
                pos <= bytes@.len(),
                total == merge_run(old(self)@, bytes@, Self::apply_fn()),
                merge_run(cur@, bytes@.skip(pos as int), Self::apply_fn()) == total,
            decreases bytes@.len() - pos,
        {
            let ghost s = bytes@.skip(pos as int);
            proof {
                lemma_merge_run_step(cur@, s, Self::apply_fn());
                lemma_parse_field_len(s);
            }
            match read_field(bytes, pos) {
                Ok((f, end)) => {
                    assert(bytes@.skip(end as int) =~= s.skip((end - pos) as int));
                    match cur.applied(&f) {
                        Ok(m) => {
                            cur = m;
                        },
                        Err((m, e)) => {
                            *self = m;
                            return Err(e);
                        },
                    }
                    pos = end;
                },
                Err(e) => {
                    *self = cur;
                    return Err(e);
                },
            }
        }
        assert(bytes@.skip(pos as int) =~= Seq::<u8>::empty());
        proof {
            lemma_merge_run_empty(cur@, Self::apply_fn());
        }
        *self = cur;
        Ok(())
    }

    /// Decodes a message from its encoding.
    pub fn decode(bytes: &[u8]) -> (r: Result<Self, WireError>)
        ensures
            match Self::spec_decode(bytes@) {
                Ok(v) => r matches Ok(m) && m@ == v,
                Err(e) => r matches Err(x) && x == e,
            },
    {
        proof {
            reveal(CPublishedFile_GetChangeHistory_Request::spec_decode);
        }
        let mut m = Self::default();
        match m.merge(bytes) {
            Ok(()) => Ok(m),
            Err(e) => Err(e),
        }
    }

    /// The encoding of this message.
    pub fn encode_to_vec(&self) -> (r: Vec<u8>)
        ensures
            r@ == Self::spec_encode(self@),
    {
        let ghost v = self@;
        let mut out: Vec<u8> = Vec::new();
        let ghost p0 = Seq::<SpecField>::empty();
        put_opt_fixed64(&mut out, 1, self.publishedfileid);
        let ghost p1 = p0 + opt_fixed64(1, v.publishedfileid);
        proof {
            lemma_fields_bytes_concat(p0, opt_fixed64(1, v.publishedfileid));
        }
        put_opt_bool(&mut out, 2, self.total_only);
        let ghost p2 = p1 + opt_bool(2, v.total_only);
        proof {
            lemma_fields_bytes_concat(p1, opt_bool(2, v.total_only));
        }
        put_opt_u32(&mut out, 3, self.startindex);
        let ghost p3 = p2 + opt_u32(3, v.startindex);
        proof {
            lemma_fields_bytes_concat(p2, opt_u32(3, v.startindex));
        }
        put_opt_u32(&mut out, 4, self.count);
        let ghost p4 = p3 + opt_u32(4, v.count);
        proof {
            lemma_fields_bytes_concat(p3, opt_u32(4, v.count));
        }
        put_opt_i32(&mut out, 5, self.language);
        let ghost p5 = p4 + opt_i32(5, v.language);
        proof {
            lemma_fields_bytes_concat(p4, opt_i32(5, v.language));
        }
        proof {
            reveal(CPublishedFile_GetChangeHistory_Request::spec_encode);
        }
        assert(p5 == Self::spec_fields(v));
        out
    }

    /// Appends the encoding of this message to `out`.
    pub fn encode_raw(&self, out: &mut Vec<u8>)
        ensures
            final(out)@ == old(out)@ + Self::spec_encode(self@),
    {
        let mut b = self.encode_to_vec();
        out.append(&mut b);
    }

    /// The first `k` fields of `v`, the others as a fresh message has them.
    #[verifier::opaque]
    pub open spec fn spec_prefix(v: SpecCPublishedFile_GetChangeHistory_Request, k: int) -> SpecCPublishedFile_GetChangeHistory_Request {
        SpecCPublishedFile_GetChangeHistory_Request {
            publishedfileid: if 1 <= k { v.publishedfileid } else { None },
            total_only: if 2 <= k { v.total_only } else { None },
            startindex: if 3 <= k { v.startindex } else { None },
            count: if 4 <= k { v.count } else { None },
            language: if 5 <= k { v.language } else { None },
        }
    }

    /// Reading field 1 back, after the fields before it.
    proof fn lemma_field_publishedfileid(v: SpecCPublishedFile_GetChangeHistory_Request)
        ensures
            fold_fields(Self::spec_prefix(v, 0), opt_fixed64(1, v.publishedfileid), Self::apply_fn())
                == Ok::<SpecCPublishedFile_GetChangeHistory_Request, WireError>(Self::spec_prefix(v, 1)),
    {
        reveal(CPublishedFile_GetChangeHistory_Request::spec_prefix);
        reveal(opt_fixed64);
        let apply = Self::apply_fn();
        let s = Self::spec_prefix(v, 0);
        lemma_fold_opt(s, 1, match v.publishedfileid { Some(x) => Some(enc_fixed64(x)), None => None }, apply);
        if let Some(x) = v.publishedfileid {
            lemma_u64_roundtrip(x);
        }
        assert(SpecCPublishedFile_GetChangeHistory_Request { publishedfileid: v.publishedfileid, ..s } == Self::spec_prefix(v, 1));
    }

    /// Reading field 2 back, after the fields before it.
    proof fn lemma_field_total_only(v: SpecCPublishedFile_GetChangeHistory_Request)
        ensures
            fold_fields(Self::spec_prefix(v, 1), opt_bool(2, v.total_only), Self::apply_fn())
                == Ok::<SpecCPublishedFile_GetChangeHistory_Request, WireError>(Self::spec_prefix(v, 2)),
    {
        reveal(CPublishedFile_GetChangeHistory_Request::spec_prefix);
        reveal(opt_bool);
        let apply = Self::apply_fn();
        let s = Self::spec_prefix(v, 1);
        lemma_fold_opt(s, 2, match v.total_only { Some(x) => Some(enc_bool(x)), None => None }, apply);
        assert(SpecCPublishedFile_GetChangeHistory_Request { total_only: v.total_only, ..s } == Self::spec_prefix(v, 2));
    }

    /// Reading field 3 back, after the fields before it.
    proof fn lemma_field_startindex(v: SpecCPublishedFile_GetChangeHistory_Request)
        ensures
            fold_fields(Self::spec_prefix(v, 2), opt_u32(3, v.startindex), Self::apply_fn())
                == Ok::<SpecCPublishedFile_GetChangeHistory_Request, WireError>(Self::spec_prefix(v, 3)),
    {
        reveal(CPublishedFile_GetChangeHistory_Request::spec_prefix);
        reveal(opt_u32);
        let apply = Self::apply_fn();
        let s = Self::spec_prefix(v, 2);
        lemma_fold_opt(s, 3, match v.startindex { Some(x) => Some(enc_u32(x)), None => None }, apply);
        if let Some(x) = v.startindex {
            lemma_u32_roundtrip(x);
        }
        assert(SpecCPublishedFile_GetChangeHistory_Request { startindex: v.startindex, ..s } == Self::spec_prefix(v, 3));
    }

    /// Reading field 4 back, after the fields before it.
    proof fn lemma_field_count(v: SpecCPublishedFile_GetChangeHistory_Request)
        ensures
            fold_fields(Self::spec_prefix(v, 3), opt_u32(4, v.count), Self::apply_fn())
                == Ok::<SpecCPublishedFile_GetChangeHistory_Request, WireError>(Self::spec_prefix(v, 4)),
    {
        reveal(CPublishedFile_GetChangeHistory_Request::spec_prefix);
        reveal(opt_u32);
        let apply = Self::apply_fn();
        let s = Self::spec_prefix(v, 3);
        lemma_fold_opt(s, 4, match v.count { Some(x) => Some(enc_u32(x)), None => None }, apply);
        if let Some(x) = v.count {
            lemma_u32_roundtrip(x);
        }
        assert(SpecCPublishedFile_GetChangeHistory_Request { count: v.count, ..s } == Self::spec_prefix(v, 4));
    }

    /// Reading field 5 back, after the fields before it.
    proof fn lemma_field_language(v: SpecCPublishedFile_GetChangeHistory_Request)
        ensures
            fold_fields(Self::spec_prefix(v, 4), opt_i32(5, v.language), Self::apply_fn())
                == Ok::<SpecCPublishedFile_GetChangeHistory_Request, WireError>(Self::spec_prefix(v, 5)),
    {
        reveal(CPublishedFile_GetChangeHistory_Request::spec_prefix);
        reveal(opt_i32);
        let apply = Self::apply_fn();
        let s = Self::spec_prefix(v, 4);
        lemma_fold_opt(s, 5, match v.language { Some(x) => Some(enc_i32(x)), None => None }, apply);
        if let Some(x) = v.language {
            lemma_i32_roundtrip(x);
        }
        assert(SpecCPublishedFile_GetChangeHistory_Request { language: v.language, ..s } == Self::spec_prefix(v, 5));
    }

    /// Whether this message declares field number `n`.
    pub open spec fn declares(n: u32) -> bool {
        n == 1 || n == 2 || n == 3 || n == 4 || n == 5
    }

    /// A record with a number this message does not declare is passed over: well-formed
    /// bytes decode to the same message with such a record after them as without it.
    pub proof fn lemma_unknown_field(bytes: Seq<u8>, f: SpecField)
        requires
            parse_fields(bytes) is Ok,
            field_wf(f),
            !Self::declares(f.number),
        ensures
            Self::spec_decode(bytes + field_bytes(f)) == Self::spec_decode(bytes),
    {
        reveal(CPublishedFile_GetChangeHistory_Request::spec_decode);
        lemma_parse_fields_append(bytes, f);
        let fs = parse_fields(bytes).unwrap();
        let apply = Self::apply_fn();
        lemma_fold_concat(Self::spec_default(), fs, seq![f], apply);
        assert(fs.push(f) =~= fs + seq![f]);
        if let Ok(w) = fold_fields(Self::spec_default(), fs, apply) {
            lemma_fold_single(w, f, apply);
        }
        lemma_merge_run_fold(Self::spec_default(), bytes, apply);
        lemma_merge_run_fold(Self::spec_default(), bytes + field_bytes(f), apply);
    }

    /// Decoding the encoding of a message gives the message back.
    pub proof fn lemma_decode_encode(v: SpecCPublishedFile_GetChangeHistory_Request)
        requires
            Self::spec_encode(v).len() <= u64::MAX,
        ensures
            Self::spec_decode(Self::spec_encode(v)) == Ok::<SpecCPublishedFile_GetChangeHistory_Request, WireError>(v),
    {
        let apply = Self::apply_fn();
        let d = Self::spec_default();
        let p0 = Seq::<SpecField>::empty();
        let l1 = opt_fixed64(1, v.publishedfileid);
        let p1 = p0 + l1;
        let l2 = opt_bool(2, v.total_only);
        let p2 = p1 + l2;
        let l3 = opt_u32(3, v.startindex);
        let p3 = p2 + l3;
        let l4 = opt_u32(4, v.count);
        let p4 = p3 + l4;
        let l5 = opt_i32(5, v.language);
        let p5 = p4 + l5;
        assert(parse_fields(Self::spec_encode(v)) == Ok::<Seq<SpecField>, WireError>(p5)) by {
            reveal(CPublishedFile_GetChangeHistory_Request::spec_encode);
            assert(numbers_ok(p0) && fields_wf(p0)) by {
                reveal(numbers_ok);
                reveal(fields_wf);
            }
            lemma_opt_fixed64_numbered(1, v.publishedfileid);
            lemma_fields_wf_concat(p0, l1);
            lemma_opt_bool_numbered(2, v.total_only);
            lemma_fields_wf_concat(p1, l2);
            lemma_opt_u32_numbered(3, v.startindex);
            lemma_fields_wf_concat(p2, l3);
            lemma_opt_u32_numbered(4, v.count);
            lemma_fields_wf_concat(p3, l4);
            lemma_opt_i32_numbered(5, v.language);
            lemma_fields_wf_concat(p4, l5);
            assert(p5 == Self::spec_fields(v));
            lemma_fields_wf_from_len(p5);
            lemma_fields_roundtrip(p5);
        }
        assert(Self::spec_prefix(v, 0) == d) by {
            reveal(CPublishedFile_GetChangeHistory_Request::spec_prefix);
        }
        lemma_fold_empty(d, apply);
        lemma_fold_concat(d, p0, l1, apply);
        Self::lemma_field_publishedfileid(v);
        lemma_fold_concat(d, p1, l2, apply);
        Self::lemma_field_total_only(v);
        lemma_fold_concat(d, p2, l3, apply);
        Self::lemma_field_startindex(v);
        lemma_fold_concat(d, p3, l4, apply);
        Self::lemma_field_count(v);
        lemma_fold_concat(d, p4, l5, apply);
        Self::lemma_field_language(v);
        assert(Self::spec_prefix(v, 5) == v) by {
            reveal(CPublishedFile_GetChangeHistory_Request::spec_prefix);
        }
        lemma_merge_run_fold(d, Self::spec_encode(v), apply);
        assert(Self::spec_decode(Self::spec_encode(v)) == Ok::<SpecCPublishedFile_GetChangeHistory_Request, WireError>(v)) by {
            reveal(CPublishedFile_GetChangeHistory_Request::spec_decode);
        }
    }
}

/// `CPublishedFile_GetChangeHistory_Response`, as Valve's schema declares it.
#[derive(Debug, Clone, PartialEq)]
pub struct CPublishedFile_GetChangeHistory_Response {
    /// Field 1.
    pub changes: Vec<crate::steammessages_publishedfile_steamclient::c_published_file_get_change_history_response::ChangeLog>,
    /// Field 2.
    pub total: Option<u32>,
}

/// What a `CPublishedFile_GetChangeHistory_Response` holds, as mathematical values.
#[verifier::ext_equal]
pub struct SpecCPublishedFile_GetChangeHistory_Response {
    pub changes: Seq<crate::steammessages_publishedfile_steamclient::c_published_file_get_change_history_response::SpecChangeLog>,
    pub total: Option<u32>,
}

impl View for CPublishedFile_GetChangeHistory_Response {
    type V = SpecCPublishedFile_GetChangeHistory_Response;

    open spec fn view(&self) -> SpecCPublishedFile_GetChangeHistory_Response {
        SpecCPublishedFile_GetChangeHistory_Response {
            changes: crate::steammessages_publishedfile_steamclient::c_published_file_get_change_history_response::ChangeLog::view_all(self.changes@),
            total: self.total,
        }
    }
}

impl Default for CPublishedFile_GetChangeHistory_Response {
    fn default() -> (r: Self)
        ensures
            r@ == CPublishedFile_GetChangeHistory_Response::spec_default(),
    {
        CPublishedFile_GetChangeHistory_Response {
            changes: Vec::new(),
            total: None,
        }
    }
}

impl CPublishedFile_GetChangeHistory_Response {
    pub open spec fn spec_default() -> SpecCPublishedFile_GetChangeHistory_Response {
        SpecCPublishedFile_GetChangeHistory_Response {
            changes: Seq::empty(),
            total: None,
        }
    }

    /// The records a `CPublishedFile_GetChangeHistory_Response` is written as, in field order.
    pub open spec fn spec_fields(v: SpecCPublishedFile_GetChangeHistory_Response) -> Seq<SpecField> {
        Seq::<SpecField>::empty()
            + rep_bytes(1, crate::steammessages_publishedfile_steamclient::c_published_file_get_change_history_response::ChangeLog::spec_encode_all(v.changes))
            + opt_u32(2, v.total)
    }

    #[verifier::opaque]
    pub open spec fn spec_encode(v: SpecCPublishedFile_GetChangeHistory_Response) -> Seq<u8> {
        fields_bytes(Self::spec_fields(v))
    }

    /// What one record does to the message: a declared number sets or extends its
    /// field, any other number is left alone.
    pub open spec fn spec_apply(v: SpecCPublishedFile_GetChangeHistory_Response, f: SpecField) -> Result<SpecCPublishedFile_GetChangeHistory_Response, WireError> {
        match f.number {
            1 => match dec_bytes(f.value) {
                Ok(b) => match crate::steammessages_publishedfile_steamclient::c_published_file_get_change_history_response::ChangeLog::spec_decode(b) {
                    Ok(m) => Ok(SpecCPublishedFile_GetChangeHistory_Response { changes: v.changes.push(m), ..v }),
                    Err(e) => Err(e),
                },
                Err(e) => Err(e),
            },
            2 => match dec_u32(f.value) {
                Ok(x) => Ok(SpecCPublishedFile_GetChangeHistory_Response { total: Some(x), ..v }),
                Err(e) => Err(e),
            },
            _ => Ok(v),
        }
    }

    pub open spec fn apply_fn() -> spec_fn(SpecCPublishedFile_GetChangeHistory_Response, SpecField) -> Result<SpecCPublishedFile_GetChangeHistory_Response, WireError> {
        |v: SpecCPublishedFile_GetChangeHistory_Response, f: SpecField| Self::spec_apply(v, f)
    }

    /// The message `bytes` makes of `v`: its records applied in order, or the error
    /// that stops the reading.
    pub open spec fn spec_merge(v: SpecCPublishedFile_GetChangeHistory_Response, bytes: Seq<u8>) -> Result<SpecCPublishedFile_GetChangeHistory_Response, WireError> {
        let (w, stop) = merge_run(v, bytes, Self::apply_fn());
        match stop {
            None => Ok(w),
            Some(e) => Err(e),
        }
    }

    #[verifier::opaque]
    pub open spec fn spec_decode(bytes: Seq<u8>) -> Result<SpecCPublishedFile_GetChangeHistory_Response, WireError> {
        Self::spec_merge(Self::spec_default(), bytes)
    }

    /// This message with one record applied to it, or, when the record is refused,
    /// the message unchanged and the reason.
    fn applied(self, f: &Field) -> (r: Result<Self, (Self, WireError)>)
        ensures
            match Self::spec_apply(self@, f@) {
                Ok(v) => r matches Ok(m) && m@ == v,
                Err(e) => r matches Err((m, x)) && x == e && m@ == self@,
            },
    {
        match f.number {
            1 => match read_payload(&f.value) {
                Ok(b) => match crate::steammessages_publishedfile_steamclient::c_published_file_get_change_history_response::ChangeLog::decode(b) {
                    Ok(x) => {
                        let mut m = self;
                        let ghost before = m.changes@;
                        m.changes.push(x);
                        assert(crate::steammessages_publishedfile_steamclient::c_published_file_get_change_history_response::ChangeLog::view_all(m.changes@) =~= crate::steammessages_publishedfile_steamclient::c_published_file_get_change_history_response::ChangeLog::view_all(before).push(x@));
                        Ok(m)
                    },
                    Err(e) => Err((self, e)),
                },
                Err(e) => Err((self, e)),
            },
            2 => match read_u32(&f.value) {
                Ok(x) => Ok(Self { total: Some(x), ..self }),
                Err(e) => Err((self, e)),
            },
            _ => Ok(self),
        }
    }

    /// Reads the records `bytes` holds into this message, in order. When a record does
    /// not parse or is refused, the reading stops there: the message keeps what the
    /// records before it gave, and the error is returned.
    pub fn merge(&mut self, bytes: &[u8]) -> (r: Result<(), WireError>)
        ensures
            final(self)@ == merge_run(old(self)@, bytes@, Self::apply_fn()).0,
            r == match merge_run(old(self)@, bytes@, Self::apply_fn()).1 {
                None => Ok::<(), WireError>(()),
                Some(e) => Err::<(), WireError>(e),
            },
    {
        let ghost total = merge_run(self@, bytes@, Self::apply_fn());
        let mut cur = Self::default();
        std::mem::swap(&mut cur, self);
        let mut pos: usize = 0;
        assert(bytes@.skip(0) =~= bytes@);
        while pos < bytes.len()
            invariant
                pos <= bytes@.len(),
                total == merge_run(old(self)@, bytes@, Self::apply_fn()),
                merge_run(cur@, bytes@.skip(pos as int), Self::apply_fn()) == total,
            decreases bytes@.len() - pos,
        {
            let ghost s = bytes@.skip(pos as int);
            proof {
                lemma_merge_run_step(cur@, s, Self::apply_fn());
                lemma_parse_field_len(s);
            }
            match read_field(bytes, pos) {
                Ok((f, end)) => {
                    assert(bytes@.skip(end as int) =~= s.skip((end - pos) as int));
                    match cur.applied(&f) {
                        Ok(m) => {
                            cur = m;
                        },
                        Err((m, e)) => {
                            *self = m;
                            return Err(e);
                        },
                    }
                    pos = end;
                },
                Err(e) => {
                    *self = cur;
                    return Err(e);
                },
            }
        }
        assert(bytes@.skip(pos as int) =~= Seq::<u8>::empty());
        proof {
            lemma_merge_run_empty(cur@, Self::apply_fn());
        }
        *self = cur;
        Ok(())
    }

    /// Decodes a message from its encoding.
    pub fn decode(bytes: &[u8]) -> (r: Result<Self, WireError>)
        ensures
            match Self::spec_decode(bytes@) {
                Ok(v) => r matches Ok(m) && m@ == v,
                Err(e) => r matches Err(x) && x == e,
            },
    {
        proof {
            reveal(CPublishedFile_GetChangeHistory_Response::spec_decode);
        }
        let mut m = Self::default();
        match m.merge(bytes) {
            Ok(()) => Ok(m),
            Err(e) => Err(e),
        }
    }

    /// The encoding of this message.
    pub fn encode_to_vec(&self) -> (r: Vec<u8>)
        ensures
            r@ == Self::spec_encode(self@),
    {
        let enc_changes = crate::steammessages_publishedfile_steamclient::c_published_file_get_change_history_response::ChangeLog::encode_all(&self.changes);
        let ghost v = self@;
        let mut out: Vec<u8> = Vec::new();
        let ghost p0 = Seq::<SpecField>::empty();
        put_rep_bytes(&mut out, 1, &enc_changes);
        let ghost p1 = p0 + rep_bytes(1, crate::steammessages_publishedfile_steamclient::c_published_file_get_change_history_response::ChangeLog::spec_encode_all(v.changes));
        proof {
            lemma_fields_bytes_concat(p0, rep_bytes(1, crate::steammessages_publishedfile_steamclient::c_published_file_get_change_history_response::ChangeLog::spec_encode_all(v.changes)));
        }
        put_opt_u32(&mut out, 2, self.total);
        let ghost p2 = p1 + opt_u32(2, v.total);
        proof {
            lemma_fields_bytes_concat(p1, opt_u32(2, v.total));
        }
        proof {
            reveal(CPublishedFile_GetChangeHistory_Response::spec_encode);
        }
        assert(p2 == Self::spec_fields(v));
        out
    }

    /// Appends the encoding of this message to `out`.
    pub fn encode_raw(&self, out: &mut Vec<u8>)
        ensures
            final(out)@ == old(out)@ + Self::spec_encode(self@),
    {
        let mut b = self.encode_to_vec();
        out.append(&mut b);
    }

    /// The first `k` fields of `v`, the others as a fresh message has them.
    #[verifier::opaque]
    pub open spec fn spec_prefix(v: SpecCPublishedFile_GetChangeHistory_Response, k: int) -> SpecCPublishedFile_GetChangeHistory_Response {
        SpecCPublishedFile_GetChangeHistory_Response {
            changes: if 1 <= k { v.changes } else { Seq::empty() },
            total: if 2 <= k { v.total } else { None },
        }
    }

    /// Reading field 1 back, after the fields before it.
    proof fn lemma_field_changes(v: SpecCPublishedFile_GetChangeHistory_Response)
        requires
            fields_wf(rep_bytes(1, crate::steammessages_publishedfile_steamclient::c_published_file_get_change_history_response::ChangeLog::spec_encode_all(v.changes))),
        ensures
            fold_fields(Self::spec_prefix(v, 0), rep_bytes(1, crate::steammessages_publishedfile_steamclient::c_published_file_get_change_history_response::ChangeLog::spec_encode_all(v.changes)), Self::apply_fn())
                == Ok::<SpecCPublishedFile_GetChangeHistory_Response, WireError>(Self::spec_prefix(v, 1)),
    {
        reveal(CPublishedFile_GetChangeHistory_Response::spec_prefix);
        reveal(rep_bytes);
        reveal(fields_wf);
        let apply = Self::apply_fn();
        let s = Self::spec_prefix(v, 0);
        let l = rep_bytes(1, crate::steammessages_publishedfile_steamclient::c_published_file_get_change_history_response::ChangeLog::spec_encode_all(v.changes));
        let xs = v.changes;
        let st = Seq::new((xs.len() + 1) as nat, |j: int| SpecCPublishedFile_GetChangeHistory_Response { changes: xs.take(j), ..s });
        assert forall|j: int| 0 <= j < l.len() implies #[trigger] apply(st[j], l[j]) == Ok::<SpecCPublishedFile_GetChangeHistory_Response, WireError>(st[j + 1]) by {
            assert(field_wf(l[j]));
            crate::steammessages_publishedfile_steamclient::c_published_file_get_change_history_response::ChangeLog::lemma_decode_encode(xs[j]);
            assert(xs.take(j).push(xs[j]) =~= xs.take(j + 1));
        }
        lemma_fold_chain(l, st, apply);
        assert(xs.take(0) =~= Seq::<crate::steammessages_publishedfile_steamclient::c_published_file_get_change_history_response::SpecChangeLog>::empty());
        assert(xs.take(xs.len() as int) =~= xs);
        assert(st[0] == s);
        assert(st[xs.len() as int] == Self::spec_prefix(v, 1));
    }

    /// Reading field 2 back, after the fields before it.
    proof fn lemma_field_total(v: SpecCPublishedFile_GetChangeHistory_Response)
        ensures
            fold_fields(Self::spec_prefix(v, 1), opt_u32(2, v.total), Self::apply_fn())
                == Ok::<SpecCPublishedFile_GetChangeHistory_Response, WireError>(Self::spec_prefix(v, 2)),
    {
        reveal(CPublishedFile_GetChangeHistory_Response::spec_prefix);
        reveal(opt_u32);
        let apply = Self::apply_fn();
        let s = Self::spec_prefix(v, 1);
        lemma_fold_opt(s, 2, match v.total { Some(x) => Some(enc_u32(x)), None => None }, apply);
        if let Some(x) = v.total {
            lemma_u32_roundtrip(x);
        }
        assert(SpecCPublishedFile_GetChangeHistory_Response { total: v.total, ..s } == Self::spec_prefix(v, 2));
    }

    /// Whether this message declares field number `n`.
    pub open spec fn declares(n: u32) -> bool {
        n == 1 || n == 2
    }

    /// A record with a number this message does not declare is passed over: well-formed
    /// bytes decode to the same message with such a record after them as without it.
    pub proof fn lemma_unknown_field(bytes: Seq<u8>, f: SpecField)
        requires
            parse_fields(bytes) is Ok,
            field_wf(f),
            !Self::declares(f.number),
        ensures
            Self::spec_decode(bytes + field_bytes(f)) == Self::spec_decode(bytes),
    {
        reveal(CPublishedFile_GetChangeHistory_Response::spec_decode);
        lemma_parse_fields_append(bytes, f);
        let fs = parse_fields(bytes).unwrap();
        let apply = Self::apply_fn();
        lemma_fold_concat(Self::spec_default(), fs, seq![f], apply);
        assert(fs.push(f) =~= fs + seq![f]);
        if let Ok(w) = fold_fields(Self::spec_default(), fs, apply) {
            lemma_fold_single(w, f, apply);
        }
        lemma_merge_run_fold(Self::spec_default(), bytes, apply);
        lemma_merge_run_fold(Self::spec_default(), bytes + field_bytes(f), apply);
    }

    /// Decoding the encoding of a message gives the message back.
    pub proof fn lemma_decode_encode(v: SpecCPublishedFile_GetChangeHistory_Response)
        requires
            Self::spec_encode(v).len() <= u64::MAX,
        ensures
            Self::spec_decode(Self::spec_encode(v)) == Ok::<SpecCPublishedFile_GetChangeHistory_Response, WireError>(v),
    {
        let apply = Self::apply_fn();
        let d = Self::spec_default();
        let p0 = Seq::<SpecField>::empty();
        let l1 = rep_bytes(1, crate::steammessages_publishedfile_steamclient::c_published_file_get_change_history_response::ChangeLog::spec_encode_all(v.changes));
        let p1 = p0 + l1;
        let l2 = opt_u32(2, v.total);
        let p2 = p1 + l2;
        assert(parse_fields(Self::spec_encode(v)) == Ok::<Seq<SpecField>, WireError>(p2) && fields_wf(l1)) by {
            reveal(CPublishedFile_GetChangeHistory_Response::spec_encode);
            assert(numbers_ok(p0) && fields_wf(p0)) by {
                reveal(numbers_ok);
                reveal(fields_wf);
            }
            lemma_rep_bytes_numbered(1, crate::steammessages_publishedfile_steamclient::c_published_file_get_change_history_response::ChangeLog::spec_encode_all(v.changes));
            lemma_fields_wf_concat(p0, l1);
            lemma_opt_u32_numbered(2, v.total);
            lemma_fields_wf_concat(p1, l2);
            assert(p2 == Self::spec_fields(v));
            lemma_fields_wf_from_len(p2);
            lemma_fields_roundtrip(p2);
        }
        assert(Self::spec_prefix(v, 0) == d) by {
            reveal(CPublishedFile_GetChangeHistory_Response::spec_prefix);
        }
        lemma_fold_empty(d, apply);
        lemma_fold_concat(d, p0, l1, apply);
        Self::lemma_field_changes(v);
        lemma_fold_concat(d, p1, l2, apply);
        Self::lemma_field_total(v);
        assert(Self::spec_prefix(v, 2) == v) by {
            reveal(CPublishedFile_GetChangeHistory_Response::spec_prefix);
        }
        lemma_merge_run_fold(d, Self::spec_encode(v), apply);
        assert(Self::spec_decode(Self::spec_encode(v)) == Ok::<SpecCPublishedFile_GetChangeHistory_Response, WireError>(v)) by {
            reveal(CPublishedFile_GetChangeHistory_Response::spec_decode);
        }
    }
}

/// `CPublishedFile_RefreshVotingQueue_Request`, as Valve's schema declares it.
#[derive(Debug, Clone, PartialEq)]
pub struct CPublishedFile_RefreshVotingQueue_Request {
    /// Field 1.
    pub appid: Option<u32>,
    /// Field 2.
    pub matching_file_type: Option<u32>,
    /// Field 3.
    pub tags: Vec<String>,
    /// Field 4.
    pub match_all_tags: Option<bool>,
    /// Field 5.
    pub excluded_tags: Vec<String>,
    /// Field 6.
    pub desired_queue_size: Option<u32>,
    /// Field 8.
    pub desired_revision: Option<crate::steammessages_publishedfile_steamclient::EPublishedFileRevision>,
}

/// What a `CPublishedFile_RefreshVotingQueue_Request` holds, as mathematical values.
#[verifier::ext_equal]
pub struct SpecCPublishedFile_RefreshVotingQueue_Request {
    pub appid: Option<u32>,
    pub matching_file_type: Option<u32>,
    pub tags: Seq<Seq<char>>,
    pub match_all_tags: Option<bool>,
    pub excluded_tags: Seq<Seq<char>>,
    pub desired_queue_size: Option<u32>,
    pub desired_revision: Option<i32>,
}

impl View for CPublishedFile_RefreshVotingQueue_Request {
    type V = SpecCPublishedFile_RefreshVotingQueue_Request;

    open spec fn view(&self) -> SpecCPublishedFile_RefreshVotingQueue_Request {
        SpecCPublishedFile_RefreshVotingQueue_Request {
            appid: self.appid,
            matching_file_type: self.matching_file_type,
            tags: strings_view(self.tags@),
            match_all_tags: self.match_all_tags,
            excluded_tags: strings_view(self.excluded_tags@),
            desired_queue_size: self.desired_queue_size,
            desired_revision: match self.desired_revision { Some(e) => Some(e.0), None => None },
        }
    }
}

impl Default for CPublishedFile_RefreshVotingQueue_Request {
    fn default() -> (r: Self)
        ensures
            r@ == CPublishedFile_RefreshVotingQueue_Request::spec_default(),
    {
        CPublishedFile_RefreshVotingQueue_Request {
            appid: None,
            matching_file_type: None,
            tags: Vec::new(),
            match_all_tags: None,
            excluded_tags: Vec::new(),
            desired_queue_size: None,
            desired_revision: None,
        }
    }
}

impl CPublishedFile_RefreshVotingQueue_Request {
    /// Field 4, or its schema default when absent.
    pub fn match_all_tags_or_default(&self) -> (r: bool)
        ensures
            r == match self.match_all_tags {
                Some(x) => x,
                None => true,
            },
    {
        self.match_all_tags.unwrap_or(true)
    }

    /// Field 8, or its schema default when absent.
    pub fn desired_revision_or_default(&self) -> (r: crate::steammessages_publishedfile_steamclient::EPublishedFileRevision)
        ensures
            r == match self.desired_revision {
                Some(e) => e,
                None => crate::steammessages_publishedfile_steamclient::EPublishedFileRevision(0),
            },
    {
        match self.desired_revision {
            Some(e) => e,
            None => crate::steammessages_publishedfile_steamclient::EPublishedFileRevision::k_EPublishedFileRevision_Default(),
        }
    }

    pub open spec fn spec_default() -> SpecCPublishedFile_RefreshVotingQueue_Request {
        SpecCPublishedFile_RefreshVotingQueue_Request {
            appid: None,
            matching_file_type: None,
            tags: Seq::empty(),
            match_all_tags: None,
            excluded_tags: Seq::empty(),
            desired_queue_size: None,
            desired_revision: None,
        }
    }

    /// The records a `CPublishedFile_RefreshVotingQueue_Request` is written as, in field order.
    pub open spec fn spec_fields(v: SpecCPublishedFile_RefreshVotingQueue_Request) -> Seq<SpecField> {
        Seq::<SpecField>::empty()
            + opt_u32(1, v.appid)
            + opt_u32(2, v.matching_file_type)
            + rep_string(3, v.tags)
            + opt_bool(4, v.match_all_tags)
            + rep_string(5, v.excluded_tags)
            + opt_u32(6, v.desired_queue_size)
            + opt_i32(8, v.desired_revision)
    }

    #[verifier::opaque]
    pub open spec fn spec_encode(v: SpecCPublishedFile_RefreshVotingQueue_Request) -> Seq<u8> {
        fields_bytes(Self::spec_fields(v))
    }

    /// What one record does to the message: a declared number sets or extends its
    /// field, any other number is left alone.
    pub open spec fn spec_apply(v: SpecCPublishedFile_RefreshVotingQueue_Request, f: SpecField) -> Result<SpecCPublishedFile_RefreshVotingQueue_Request, WireError> {
        match f.number {
            1 => match dec_u32(f.value) {
                Ok(x) => Ok(SpecCPublishedFile_RefreshVotingQueue_Request { appid: Some(x), ..v }),
                Err(e) => Err(e),
            },
            2 => match dec_u32(f.value) {
                Ok(x) => Ok(SpecCPublishedFile_RefreshVotingQueue_Request { matching_file_type: Some(x), ..v }),
                Err(e) => Err(e),
            },
            3 => match dec_string(f.value) {
                Ok(x) => Ok(SpecCPublishedFile_RefreshVotingQueue_Request { tags: v.tags.push(x), ..v }),
                Err(e) => Err(e),
            },
            4 => match dec_bool(f.value) {
                Ok(x) => Ok(SpecCPublishedFile_RefreshVotingQueue_Request { match_all_tags: Some(x), ..v }),
                Err(e) => Err(e),
            },
            5 => match dec_string(f.value) {
                Ok(x) => Ok(SpecCPublishedFile_RefreshVotingQueue_Request { excluded_tags: v.excluded_tags.push(x), ..v }),
                Err(e) => Err(e),
            },
            6 => match dec_u32(f.value) {
                Ok(x) => Ok(SpecCPublishedFile_RefreshVotingQueue_Request { desired_queue_size: Some(x), ..v }),
                Err(e) => Err(e),
            },
            8 => match dec_i32(f.value) {
                Ok(x) => Ok(SpecCPublishedFile_RefreshVotingQueue_Request { desired_revision: Some(x), ..v }),
                Err(e) => Err(e),
            },
            _ => Ok(v),
        }
    }

    pub open spec fn apply_fn() -> spec_fn(SpecCPublishedFile_RefreshVotingQueue_Request, SpecField) -> Result<SpecCPublishedFile_RefreshVotingQueue_Request, WireError> {
        |v: SpecCPublishedFile_RefreshVotingQueue_Request, f: SpecField| Self::spec_apply(v, f)
    }

    /// The message `bytes` makes of `v`: its records applied in order, or the error
    /// that stops the reading.
    pub open spec fn spec_merge(v: SpecCPublishedFile_RefreshVotingQueue_Request, bytes: Seq<u8>) -> Result<SpecCPublishedFile_RefreshVotingQueue_Request, WireError> {
        let (w, stop) = merge_run(v, bytes, Self::apply_fn());
        match stop {
            None => Ok(w),
            Some(e) => Err(e),
        }
    }

    #[verifier::opaque]
    pub open spec fn spec_decode(bytes: Seq<u8>) -> Result<SpecCPublishedFile_RefreshVotingQueue_Request, WireError> {
        Self::spec_merge(Self::spec_default(), bytes)
    }

    /// This message with one record applied to it, or, when the record is refused,
    /// the message unchanged and the reason.
    fn applied(self, f: &Field) -> (r: Result<Self, (Self, WireError)>)
        ensures
            match Self::spec_apply(self@, f@) {
                Ok(v) => r matches Ok(m) && m@ == v,
                Err(e) => r matches Err((m, x)) && x == e && m@ == self@,
            },
    {
        match f.number {
            1 => match read_u32(&f.value) {
                Ok(x) => Ok(Self { appid: Some(x), ..self }),
                Err(e) => Err((self, e)),
            },
            2 => match read_u32(&f.value) {
                Ok(x) => Ok(Self { matching_file_type: Some(x), ..self }),
                Err(e) => Err((self, e)),
            },
            3 => match read_string(&f.value) {
                Ok(x) => {
                    let mut m = self;
                    let ghost before = m.tags@;
                    m.tags.push(x);
                    assert(strings_view(m.tags@) =~= strings_view(before).push(x@));
                    Ok(m)
                },
                Err(e) => Err((self, e)),
            },
            4 => match read_bool(&f.value) {
                Ok(x) => Ok(Self { match_all_tags: Some(x), ..self }),
                Err(e) => Err((self, e)),
            },
            5 => match read_string(&f.value) {
                Ok(x) => {
                    let mut m = self;
                    let ghost before = m.excluded_tags@;
                    m.excluded_tags.push(x);
                    assert(strings_view(m.excluded_tags@) =~= strings_view(before).push(x@));
                    Ok(m)
                },
                Err(e) => Err((self, e)),
            },
            6 => match read_u32(&f.value) {
                Ok(x) => Ok(Self { desired_queue_size: Some(x), ..self }),
                Err(e) => Err((self, e)),
            },
            8 => match read_i32(&f.value) {
                Ok(x) => Ok(Self { desired_revision: Some(crate::steammessages_publishedfile_steamclient::EPublishedFileRevision(x)), ..self }),
                Err(e) => Err((self, e)),
            },
            _ => Ok(self),
        }
    }

    /// Reads the records `bytes` holds into this message, in order. When a record does
    /// not parse or is refused, the reading stops there: the message keeps what the
    /// records before it gave, and the error is returned.
    pub fn merge(&mut self, bytes: &[u8]) -> (r: Result<(), WireError>)
        ensures
            final(self)@ == merge_run(old(self)@, bytes@, Self::apply_fn()).0,
            r == match merge_run(old(self)@, bytes@, Self::apply_fn()).1 {
                None => Ok::<(), WireError>(()),
                Some(e) => Err::<(), WireError>(e),
            },
    {
        let ghost total = merge_run(self@, bytes@, Self::apply_fn());
        let mut cur = Self::default();
        std::mem::swap(&mut cur, self);
        let mut pos: usize = 0;
        assert(bytes@.skip(0) =~= bytes@);
        while pos < bytes.len()
            invariant
                pos <= bytes@.len(),
                total == merge_run(old(self)@, bytes@, Self::apply_fn()),
                merge_run(cur@, bytes@.skip(pos as int), Self::apply_fn()) == total,
            decreases bytes@.len() - pos,
        {
            let ghost s = bytes@.skip(pos as int);
            proof {
                lemma_merge_run_step(cur@, s, Self::apply_fn());
                lemma_parse_field_len(s);
            }
            match read_field(bytes, pos) {
                Ok((f, end)) => {
                    assert(bytes@.skip(end as int) =~= s.skip((end - pos) as int));
                    match cur.applied(&f) {
                        Ok(m) => {
                            cur = m;
                        },
                        Err((m, e)) => {
                            *self = m;
                            return Err(e);
                        },
                    }
                    pos = end;
                },
                Err(e) => {
                    *self = cur;
                    return Err(e);
                },
            }
        }
        assert(bytes@.skip(pos as int) =~= Seq::<u8>::empty());
        proof {
            lemma_merge_run_empty(cur@, Self::apply_fn());
        }
        *self = cur;
        Ok(())
    }

    /// Decodes a message from its encoding.
    pub fn decode(bytes: &[u8]) -> (r: Result<Self, WireError>)
        ensures
            match Self::spec_decode(bytes@) {
                Ok(v) => r matches Ok(m) && m@ == v,
                Err(e) => r matches Err(x) && x == e,
            },
    {
        proof {
            reveal(CPublishedFile_RefreshVotingQueue_Request::spec_decode);
        }
        let mut m = Self::default();
        match m.merge(bytes) {
            Ok(()) => Ok(m),
            Err(e) => Err(e),
        }
    }

    /// The encoding of this message.
    pub fn encode_to_vec(&self) -> (r: Vec<u8>)
        ensures
            r@ == Self::spec_encode(self@),
    {
        let ghost v = self@;
        let mut out: Vec<u8> = Vec::new();
        let ghost p0 = Seq::<SpecField>::empty();
        put_opt_u32(&mut out, 1, self.appid);
        let ghost p1 = p0 + opt_u32(1, v.appid);
        proof {
            lemma_fields_bytes_concat(p0, opt_u32(1, v.appid));
        }
        put_opt_u32(&mut out, 2, self.matching_file_type);
        let ghost p2 = p1 + opt_u32(2, v.matching_file_type);
        proof {
            lemma_fields_bytes_concat(p1, opt_u32(2, v.matching_file_type));
        }
        put_rep_string(&mut out, 3, &self.tags);
        let ghost p3 = p2 + rep_string(3, v.tags);
        proof {
            lemma_fields_bytes_concat(p2, rep_string(3, v.tags));
        }
        put_opt_bool(&mut out, 4, self.match_all_tags);
        let ghost p4 = p3 + opt_bool(4, v.match_all_tags);
        proof {
            lemma_fields_bytes_concat(p3, opt_bool(4, v.match_all_tags));
        }
        put_rep_string(&mut out, 5, &self.excluded_tags);
        let ghost p5 = p4 + rep_string(5, v.excluded_tags);
        proof {
            lemma_fields_bytes_concat(p4, rep_string(5, v.excluded_tags));
        }
        put_opt_u32(&mut out, 6, self.desired_queue_size);
        let ghost p6 = p5 + opt_u32(6, v.desired_queue_size);
        proof {
            lemma_fields_bytes_concat(p5, opt_u32(6, v.desired_queue_size));
        }
        put_opt_i32(&mut out, 8, match self.desired_revision { Some(e) => Some(e.0), None => None });
        let ghost p7 = p6 + opt_i32(8, v.desired_revision);
        proof {
            lemma_fields_bytes_concat(p6, opt_i32(8, v.desired_revision));
        }
        proof {
            reveal(CPublishedFile_RefreshVotingQueue_Request::spec_encode);
        }
        assert(p7 == Self::spec_fields(v));
        out
    }

    /// Appends the encoding of this message to `out`.
    pub fn encode_raw(&self, out: &mut Vec<u8>)
        ensures
            final(out)@ == old(out)@ + Self::spec_encode(self@),
    {
        let mut b = self.encode_to_vec();
        out.append(&mut b);
    }

    /// The first `k` fields of `v`, the others as a fresh message has them.
    #[verifier::opaque]
    pub open spec fn spec_prefix(v: SpecCPublishedFile_RefreshVotingQueue_Request, k: int) -> SpecCPublishedFile_RefreshVotingQueue_Request {
        SpecCPublishedFile_RefreshVotingQueue_Request {
            appid: if 1 <= k { v.appid } else { None },
            matching_file_type: if 2 <= k { v.matching_file_type } else { None },
            tags: if 3 <= k { v.tags } else { Seq::empty() },
            match_all_tags: if 4 <= k { v.match_all_tags } else { None },
            excluded_tags: if 5 <= k { v.excluded_tags } else { Seq::empty() },
            desired_queue_size: if 6 <= k { v.desired_queue_size } else { None },
            desired_revision: if 7 <= k { v.desired_revision } else { None },
        }
    }

    /// Reading field 1 back, after the fields before it.
    proof fn lemma_field_appid(v: SpecCPublishedFile_RefreshVotingQueue_Request)
        ensures
            fold_fields(Self::spec_prefix(v, 0), opt_u32(1, v.appid), Self::apply_fn())
                == Ok::<SpecCPublishedFile_RefreshVotingQueue_Request, WireError>(Self::spec_prefix(v, 1)),
    {
        reveal(CPublishedFile_RefreshVotingQueue_Request::spec_prefix);
        reveal(opt_u32);
        let apply = Self::apply_fn();
        let s = Self::spec_prefix(v, 0);
        lemma_fold_opt(s, 1, match v.appid { Some(x) => Some(enc_u32(x)), None => None }, apply);
        if let Some(x) = v.appid {
            lemma_u32_roundtrip(x);
        }
        assert(SpecCPublishedFile_RefreshVotingQueue_Request { appid: v.appid, ..s } == Self::spec_prefix(v, 1));
    }

    /// Reading field 2 back, after the fields before it.
    proof fn lemma_field_matching_file_type(v: SpecCPublishedFile_RefreshVotingQueue_Request)
        ensures
            fold_fields(Self::spec_prefix(v, 1), opt_u32(2, v.matching_file_type), Self::apply_fn())
                == Ok::<SpecCPublishedFile_RefreshVotingQueue_Request, WireError>(Self::spec_prefix(v, 2)),
    {
        reveal(CPublishedFile_RefreshVotingQueue_Request::spec_prefix);
        reveal(opt_u32);
        let apply = Self::apply_fn();
        let s = Self::spec_prefix(v, 1);
        lemma_fold_opt(s, 2, match v.matching_file_type { Some(x) => Some(enc_u32(x)), None => None }, apply);
        if let Some(x) = v.matching_file_type {
            lemma_u32_roundtrip(x);
        }
        assert(SpecCPublishedFile_RefreshVotingQueue_Request { matching_file_type: v.matching_file_type, ..s } == Self::spec_prefix(v, 2));
    }

    /// Reading field 3 back, after the fields before it.
    proof fn lemma_field_tags(v: SpecCPublishedFile_RefreshVotingQueue_Request)
        ensures
            fold_fields(Self::spec_prefix(v, 2), rep_string(3, v.tags), Self::apply_fn())
                == Ok::<SpecCPublishedFile_RefreshVotingQueue_Request, WireError>(Self::spec_prefix(v, 3)),
    {
        reveal(CPublishedFile_RefreshVotingQueue_Request::spec_prefix);
        reveal(rep_string);
        let apply = Self::apply_fn();
        let s = Self::spec_prefix(v, 2);
        let l = rep_string(3, v.tags);
        let xs = v.tags;
        let st = Seq::new((xs.len() + 1) as nat, |j: int| SpecCPublishedFile_RefreshVotingQueue_Request { tags: xs.take(j), ..s });
        assert forall|j: int| 0 <= j < l.len() implies #[trigger] apply(st[j], l[j]) == Ok::<SpecCPublishedFile_RefreshVotingQueue_Request, WireError>(st[j + 1]) by {
            lemma_string_roundtrip(xs[j]);
            assert(xs.take(j).push(xs[j]) =~= xs.take(j + 1));
        }
        lemma_fold_chain(l, st, apply);
        assert(xs.take(0) =~= Seq::<Seq<char>>::empty());
        assert(xs.take(xs.len() as int) =~= xs);
        assert(st[0] == s);
        assert(st[xs.len() as int] == Self::spec_prefix(v, 3));
    }

    /// Reading field 4 back, after the fields before it.
    proof fn lemma_field_match_all_tags(v: SpecCPublishedFile_RefreshVotingQueue_Request)
        ensures
            fold_fields(Self::spec_prefix(v, 3), opt_bool(4, v.match_all_tags), Self::apply_fn())
                == Ok::<SpecCPublishedFile_RefreshVotingQueue_Request, WireError>(Self::spec_prefix(v, 4)),
    {
        reveal(CPublishedFile_RefreshVotingQueue_Request::spec_prefix);
        reveal(opt_bool);
        let apply = Self::apply_fn();
        let s = Self::spec_prefix(v, 3);
        lemma_fold_opt(s, 4, match v.match_all_tags { Some(x) => Some(enc_bool(x)), None => None }, apply);
        assert(SpecCPublishedFile_RefreshVotingQueue_Request { match_all_tags: v.match_all_tags, ..s } == Self::spec_prefix(v, 4));
    }

    /// Reading field 5 back, after the fields before it.
    proof fn lemma_field_excluded_tags(v: SpecCPublishedFile_RefreshVotingQueue_Request)
        ensures
            fold_fields(Self::spec_prefix(v, 4), rep_string(5, v.excluded_tags), Self::apply_fn())
                == Ok::<SpecCPublishedFile_RefreshVotingQueue_Request, WireError>(Self::spec_prefix(v, 5)),
    {
        reveal(CPublishedFile_RefreshVotingQueue_Request::spec_prefix);
        reveal(rep_string);
        let apply = Self::apply_fn();
        let s = Self::spec_prefix(v, 4);
        let l = rep_string(5, v.excluded_tags);
        let xs = v.excluded_tags;
        let st = Seq::new((xs.len() + 1) as nat, |j: int| SpecCPublishedFile_RefreshVotingQueue_Request { excluded_tags: xs.take(j), ..s });
        assert forall|j: int| 0 <= j < l.len() implies #[trigger] apply(st[j], l[j]) == Ok::<SpecCPublishedFile_RefreshVotingQueue_Request, WireError>(st[j + 1]) by {
            lemma_string_roundtrip(xs[j]);
            assert(xs.take(j).push(xs[j]) =~= xs.take(j + 1));
        }
        lemma_fold_chain(l, st, apply);
        assert(xs.take(0) =~= Seq::<Seq<char>>::empty());
        assert(xs.take(xs.len() as int) =~= xs);
        assert(st[0] == s);
        assert(st[xs.len() as int] == Self::spec_prefix(v, 5));
    }

    /// Reading field 6 back, after the fields before it.
    proof fn lemma_field_desired_queue_size(v: SpecCPublishedFile_RefreshVotingQueue_Request)
        ensures
            fold_fields(Self::spec_prefix(v, 5), opt_u32(6, v.desired_queue_size), Self::apply_fn())
                == Ok::<SpecCPublishedFile_RefreshVotingQueue_Request, WireError>(Self::spec_prefix(v, 6)),
    {
        reveal(CPublishedFile_RefreshVotingQueue_Request::spec_prefix);
        reveal(opt_u32);
        let apply = Self::apply_fn();
        let s = Self::spec_prefix(v, 5);
        lemma_fold_opt(s, 6, match v.desired_queue_size { Some(x) => Some(enc_u32(x)), None => None }, apply);
        if let Some(x) = v.desired_queue_size {
            lemma_u32_roundtrip(x);
        }
        assert(SpecCPublishedFile_RefreshVotingQueue_Request { desired_queue_size: v.desired_queue_size, ..s } == Self::spec_prefix(v, 6));
    }

    /// Reading field 8 back, after the fields before it.
    proof fn lemma_field_desired_revision(v: SpecCPublishedFile_RefreshVotingQueue_Request)
        ensures
            fold_fields(Self::spec_prefix(v, 6), opt_i32(8, v.desired_revision), Self::apply_fn())
                == Ok::<SpecCPublishedFile_RefreshVotingQueue_Request, WireError>(Self::spec_prefix(v, 7)),
    {
        reveal(CPublishedFile_RefreshVotingQueue_Request::spec_prefix);
        reveal(opt_i32);
        let apply = Self::apply_fn();
        let s = Self::spec_prefix(v, 6);
        lemma_fold_opt(s, 8, match v.desired_revision { Some(x) => Some(enc_i32(x)), None => None }, apply);
        if let Some(x) = v.desired_revision {
            lemma_i32_roundtrip(x);
        }
        assert(SpecCPublishedFile_RefreshVotingQueue_Request { desired_revision: v.desired_revision, ..s } == Self::spec_prefix(v, 7));
    }

    /// Whether this message declares field number `n`.
    pub open spec fn declares(n: u32) -> bool {
        n == 1 || n == 2 || n == 3 || n == 4 || n == 5 || n == 6 || n == 8
    }

    /// A record with a number this message does not declare is passed over: well-formed
    /// bytes decode to the same message with such a record after them as without it.
    pub proof fn lemma_unknown_field(bytes: Seq<u8>, f: SpecField)
        requires
            parse_fields(bytes) is Ok,
            field_wf(f),
            !Self::declares(f.number),
        ensures
            Self::spec_decode(bytes + field_bytes(f)) == Self::spec_decode(bytes),
    {
        reveal(CPublishedFile_RefreshVotingQueue_Request::spec_decode);
        lemma_parse_fields_append(bytes, f);
        let fs = parse_fields(bytes).unwrap();
        let apply = Self::apply_fn();
        lemma_fold_concat(Self::spec_default(), fs, seq![f], apply);
        assert(fs.push(f) =~= fs + seq![f]);
        if let Ok(w) = fold_fields(Self::spec_default(), fs, apply) {
            lemma_fold_single(w, f, apply);
        }
        lemma_merge_run_fold(Self::spec_default(), bytes, apply);
        lemma_merge_run_fold(Self::spec_default(), bytes + field_bytes(f), apply);
    }

    /// Decoding the encoding of a message gives the message back.
    pub proof fn lemma_decode_encode(v: SpecCPublishedFile_RefreshVotingQueue_Request)
        requires
            Self::spec_encode(v).len() <= u64::MAX,
        ensures
            Self::spec_decode(Self::spec_encode(v)) == Ok::<SpecCPublishedFile_RefreshVotingQueue_Request, WireError>(v),
    {
        let apply = Self::apply_fn();
        let d = Self::spec_default();
        let p0 = Seq::<SpecField>::empty();
        let l1 = opt_u32(1, v.appid);
        let p1 = p0 + l1;
        let l2 = opt_u32(2, v.matching_file_type);
        let p2 = p1 + l2;
        let l3 = rep_string(3, v.tags);
        let p3 = p2 + l3;
        let l4 = opt_bool(4, v.match_all_tags);
        let p4 = p3 + l4;
        let l5 = rep_string(5, v.excluded_tags);
        let p5 = p4 + l5;
        let l6 = opt_u32(6, v.desired_queue_size);
        let p6 = p5 + l6;
        let l7 = opt_i32(8, v.desired_revision);
        let p7 = p6 + l7;
        assert(parse_fields(Self::spec_encode(v)) == Ok::<Seq<SpecField>, WireError>(p7)) by {
            reveal(CPublishedFile_RefreshVotingQueue_Request::spec_encode);
            assert(numbers_ok(p0) && fields_wf(p0)) by {
                reveal(numbers_ok);
                reveal(fields_wf);
            }
            lemma_opt_u32_numbered(1, v.appid);
            lemma_fields_wf_concat(p0, l1);
            lemma_opt_u32_numbered(2, v.matching_file_type);
            lemma_fields_wf_concat(p1, l2);
            lemma_rep_string_numbered(3, v.tags);
            lemma_fields_wf_concat(p2, l3);
            lemma_opt_bool_numbered(4, v.match_all_tags);
            lemma_fields_wf_concat(p3, l4);
            lemma_rep_string_numbered(5, v.excluded_tags);
            lemma_fields_wf_concat(p4, l5);
            lemma_opt_u32_numbered(6, v.desired_queue_size);
            lemma_fields_wf_concat(p5, l6);
            lemma_opt_i32_numbered(8, v.desired_revision);
            lemma_fields_wf_concat(p6, l7);
            assert(p7 == Self::spec_fields(v));
            lemma_fields_wf_from_len(p7);
            lemma_fields_roundtrip(p7);
        }
        assert(Self::spec_prefix(v, 0) == d) by {
            reveal(CPublishedFile_RefreshVotingQueue_Request::spec_prefix);
        }
        lemma_fold_empty(d, apply);
        lemma_fold_concat(d, p0, l1, apply);
        Self::lemma_field_appid(v);
        lemma_fold_concat(d, p1, l2, apply);
        Self::lemma_field_matching_file_type(v);
        lemma_fold_concat(d, p2, l3, apply);
        Self::lemma_field_tags(v);
        lemma_fold_concat(d, p3, l4, apply);
        Self::lemma_field_match_all_tags(v);
        lemma_fold_concat(d, p4, l5, apply);
        Self::lemma_field_excluded_tags(v);
        lemma_fold_concat(d, p5, l6, apply);
        Self::lemma_field_desired_queue_size(v);
        lemma_fold_concat(d, p6, l7, apply);
        Self::lemma_field_desired_revision(v);
        assert(Self::spec_prefix(v, 7) == v) by {
            reveal(CPublishedFile_RefreshVotingQueue_Request::spec_prefix);
        }
        lemma_merge_run_fold(d, Self::spec_encode(v), apply);
        assert(Self::spec_decode(Self::spec_encode(v)) == Ok::<SpecCPublishedFile_RefreshVotingQueue_Request, WireError>(v)) by {
            reveal(CPublishedFile_RefreshVotingQueue_Request::spec_decode);
        }
    }
}

/// `CPublishedFile_RefreshVotingQueue_Response`, as Valve's schema declares it.
#[derive(Debug, Clone, PartialEq)]
pub struct CPublishedFile_RefreshVotingQueue_Response {}

/// What a `CPublishedFile_RefreshVotingQueue_Response` holds, as mathematical values.
#[verifier::ext_equal]
pub struct SpecCPublishedFile_RefreshVotingQueue_Response {}

impl View for CPublishedFile_RefreshVotingQueue_Response {
    type V = SpecCPublishedFile_RefreshVotingQueue_Response;

    open spec fn view(&self) -> SpecCPublishedFile_RefreshVotingQueue_Response {
        SpecCPublishedFile_RefreshVotingQueue_Response {}
    }
}

impl Default for CPublishedFile_RefreshVotingQueue_Response {
    fn default() -> (r: Self)
        ensures
            r@ == CPublishedFile_RefreshVotingQueue_Response::spec_default(),
    {
        CPublishedFile_RefreshVotingQueue_Response {}
    }
}

impl CPublishedFile_RefreshVotingQueue_Response {
    pub open spec fn spec_default() -> SpecCPublishedFile_RefreshVotingQueue_Response {
        SpecCPublishedFile_RefreshVotingQueue_Response {}
    }

    /// The records a `CPublishedFile_RefreshVotingQueue_Response` is written as, in field order.
    pub open spec fn spec_fields(v: SpecCPublishedFile_RefreshVotingQueue_Response) -> Seq<SpecField> {
        Seq::<SpecField>::empty()
    }

    #[verifier::opaque]
    pub open spec fn spec_encode(v: SpecCPublishedFile_RefreshVotingQueue_Response) -> Seq<u8> {
        fields_bytes(Self::spec_fields(v))
    }

    /// What one record does to the message: a declared number sets or extends its
    /// field, any other number is left alone.
    pub open spec fn spec_apply(v: SpecCPublishedFile_RefreshVotingQueue_Response, f: SpecField) -> Result<SpecCPublishedFile_RefreshVotingQueue_Response, WireError> {
        match f.number {
            _ => Ok(v),
        }
    }

    pub open spec fn apply_fn() -> spec_fn(SpecCPublishedFile_RefreshVotingQueue_Response, SpecField) -> Result<SpecCPublishedFile_RefreshVotingQueue_Response, WireError> {
        |v: SpecCPublishedFile_RefreshVotingQueue_Response, f: SpecField| Self::spec_apply(v, f)
    }

    /// The message `bytes` makes of `v`: its records applied in order, or the error
    /// that stops the reading.
    pub open spec fn spec_merge(v: SpecCPublishedFile_RefreshVotingQueue_Response, bytes: Seq<u8>) -> Result<SpecCPublishedFile_RefreshVotingQueue_Response, WireError> {
        let (w, stop) = merge_run(v, bytes, Self::apply_fn());
        match stop {
            None => Ok(w),
            Some(e) => Err(e),
        }
    }

    #[verifier::opaque]
    pub open spec fn spec_decode(bytes: Seq<u8>) -> Result<SpecCPublishedFile_RefreshVotingQueue_Response, WireError> {
        Self::spec_merge(Self::spec_default(), bytes)
    }

    /// This message with one record applied to it, or, when the record is refused,
    /// the message unchanged and the reason.
    fn applied(self, f: &Field) -> (r: Result<Self, (Self, WireError)>)
        ensures
            match Self::spec_apply(self@, f@) {
                Ok(v) => r matches Ok(m) && m@ == v,
                Err(e) => r matches Err((m, x)) && x == e && m@ == self@,
            },
    {
        match f.number {
            _ => Ok(self),
        }
    }

    /// Reads the records `bytes` holds into this message, in order. When a record does
    /// not parse or is refused, the reading stops there: the message keeps what the
    /// records before it gave, and the error is returned.
    pub fn merge(&mut self, bytes: &[u8]) -> (r: Result<(), WireError>)
        ensures
            final(self)@ == merge_run(old(self)@, bytes@, Self::apply_fn()).0,
            r == match merge_run(old(self)@, bytes@, Self::apply_fn()).1 {
                None => Ok::<(), WireError>(()),
                Some(e) => Err::<(), WireError>(e),
            },
    {
        let ghost total = merge_run(self@, bytes@, Self::apply_fn());
        let mut cur = Self::default();
        std::mem::swap(&mut cur, self);
        let mut pos: usize = 0;
        assert(bytes@.skip(0) =~= bytes@);
        while pos < bytes.len()
            invariant
                pos <= bytes@.len(),
                total == merge_run(old(self)@, bytes@, Self::apply_fn()),
                merge_run(cur@, bytes@.skip(pos as int), Self::apply_fn()) == total,
            decreases bytes@.len() - pos,
        {
            let ghost s = bytes@.skip(pos as int);
            proof {
                lemma_merge_run_step(cur@, s, Self::apply_fn());
                lemma_parse_field_len(s);
            }
            match read_field(bytes, pos) {
                Ok((f, end)) => {
                    assert(bytes@.skip(end as int) =~= s.skip((end - pos) as int));
                    match cur.applied(&f) {
                        Ok(m) => {
                            cur = m;
                        },
                        Err((m, e)) => {
                            *self = m;
                            return Err(e);
                        },
                    }
                    pos = end;
                },
                Err(e) => {
                    *self = cur;
                    return Err(e);
                },
            }
        }
        assert(bytes@.skip(pos as int) =~= Seq::<u8>::empty());
        proof {
            lemma_merge_run_empty(cur@, Self::apply_fn());
        }
        *self = cur;
        Ok(())
    }

    /// Decodes a message from its encoding.
    pub fn decode(bytes: &[u8]) -> (r: Result<Self, WireError>)
        ensures
            match Self::spec_decode(bytes@) {
                Ok(v) => r matches Ok(m) && m@ == v,
                Err(e) => r matches Err(x) && x == e,
            },
    {
        proof {
            reveal(CPublishedFile_RefreshVotingQueue_Response::spec_decode);
        }
        let mut m = Self::default();
        match m.merge(bytes) {
            Ok(()) => Ok(m),
            Err(e) => Err(e),
        }
    }

    /// The encoding of this message.
    pub fn encode_to_vec(&self) -> (r: Vec<u8>)
        ensures
            r@ == Self::spec_encode(self@),
    {
        let ghost v = self@;
        let mut out: Vec<u8> = Vec::new();
        let ghost p0 = Seq::<SpecField>::empty();
        proof {
            reveal(CPublishedFile_RefreshVotingQueue_Response::spec_encode);
        }
        assert(p0 == Self::spec_fields(v));
        assert(out@ =~= fields_bytes(p0));
        out
    }

    /// Appends the encoding of this message to `out`.
    pub fn encode_raw(&self, out: &mut Vec<u8>)
        ensures
            final(out)@ == old(out)@ + Self::spec_encode(self@),
    {
        let mut b = self.encode_to_vec();
        out.append(&mut b);
    }

    /// The first `k` fields of `v`, the others as a fresh message has them.
    #[verifier::opaque]
    pub open spec fn spec_prefix(v: SpecCPublishedFile_RefreshVotingQueue_Response, k: int) -> SpecCPublishedFile_RefreshVotingQueue_Response {
        SpecCPublishedFile_RefreshVotingQueue_Response {}
    }

    /// Whether this message declares field number `n`.
    pub open spec fn declares(n: u32) -> bool {
        false
    }

    /// A record with a number this message does not declare is passed over: well-formed
    /// bytes decode to the same message with such a record after them as without it.
    pub proof fn lemma_unknown_field(bytes: Seq<u8>, f: SpecField)
        requires
            parse_fields(bytes) is Ok,
            field_wf(f),
            !Self::declares(f.number),
        ensures
            Self::spec_decode(bytes + field_bytes(f)) == Self::spec_decode(bytes),
    {
        reveal(CPublishedFile_RefreshVotingQueue_Response::spec_decode);
        lemma_parse_fields_append(bytes, f);
        let fs = parse_fields(bytes).unwrap();
        let apply = Self::apply_fn();
        lemma_fold_concat(Self::spec_default(), fs, seq![f], apply);
        assert(fs.push(f) =~= fs + seq![f]);
        if let Ok(w) = fold_fields(Self::spec_default(), fs, apply) {
            lemma_fold_single(w, f, apply);
        }
        lemma_merge_run_fold(Self::spec_default(), bytes, apply);
        lemma_merge_run_fold(Self::spec_default(), bytes + field_bytes(f), apply);
    }

    /// Decoding the encoding of a message gives the message back.
    pub proof fn lemma_decode_encode(v: SpecCPublishedFile_RefreshVotingQueue_Response)
        requires
            Self::spec_encode(v).len() <= u64::MAX,
        ensures
            Self::spec_decode(Self::spec_encode(v)) == Ok::<SpecCPublishedFile_RefreshVotingQueue_Response, WireError>(v),
    {
        let apply = Self::apply_fn();
        let d = Self::spec_default();
        let p0 = Seq::<SpecField>::empty();
        assert(parse_fields(Self::spec_encode(v)) == Ok::<Seq<SpecField>, WireError>(p0)) by {
            reveal(CPublishedFile_RefreshVotingQueue_Response::spec_encode);
            assert(numbers_ok(p0) && fields_wf(p0)) by {
                reveal(numbers_ok);
                reveal(fields_wf);
            }
            assert(p0 == Self::spec_fields(v));
            lemma_fields_wf_from_len(p0);
            lemma_fields_roundtrip(p0);
        }
        assert(Self::spec_prefix(v, 0) == d) by {
            reveal(CPublishedFile_RefreshVotingQueue_Response::spec_prefix);
        }
        lemma_fold_empty(d, apply);
        assert(Self::spec_prefix(v, 0) == v) by {
            reveal(CPublishedFile_RefreshVotingQueue_Response::spec_prefix);
        }
        lemma_merge_run_fold(d, Self::spec_encode(v), apply);
        assert(Self::spec_decode(Self::spec_encode(v)) == Ok::<SpecCPublishedFile_RefreshVotingQueue_Response, WireError>(v)) by {
            reveal(CPublishedFile_RefreshVotingQueue_Response::spec_decode);
        }
    }
}

/// `CPublishedFile_QueryFiles_Request`, as Valve's schema declares it.
#[derive(Debug, Clone, PartialEq)]
pub struct CPublishedFile_QueryFiles_Request {
    /// Field 1.
    pub query_type: Option<u32>,
    /// Field 2.
    pub page: Option<u32>,
    /// Field 39.
    pub cursor: Option<String>,
    /// Field 3.
    pub numperpage: Option<u32>,
    /// Field 4.
    pub creator_appid: Option<u32>,
    /// Field 5.
    pub appid: Option<u32>,
    /// Field 6.
    pub requiredtags: Vec<String>,
    /// Field 7.
    pub excludedtags: Vec<String>,
    /// Field 8.
    pub match_all_tags: Option<bool>,
    /// Field 9.
    pub required_flags: Vec<String>,
    /// Field 10.
    pub omitted_flags: Vec<String>,
    /// Field 11.
    pub search_text: Option<String>,
    /// Field 12.
    pub filetype: Option<u32>,
    /// Field 13.
    pub child_publishedfileid: Option<u64>,
    /// Field 14.
    pub days: Option<u32>,
    /// Field 15.
    pub include_recent_votes_only: Option<bool>,
    /// Field 31.
    pub cache_max_age_seconds: Option<u32>,
    /// Field 33.
    pub language: Option<i32>,
    /// Field 34.
    pub required_kv_tags: Vec<crate::steammessages_publishedfile_steamclient::c_published_file_query_files_request::KVTag>,
    /// Field 42.
    pub taggroups: Vec<crate::steammessages_publishedfile_steamclient::c_published_file_query_files_request::TagGroup>,
    /// Field 44.
    pub date_range_created: Option<crate::steammessages_publishedfile_steamclient::c_published_file_query_files_request::DateRange>,
    /// Field 45.
    pub date_range_updated: Option<crate::steammessages_publishedfile_steamclient::c_published_file_query_files_request::DateRange>,
    /// Field 46.
    pub excluded_content_descriptors: Vec<crate::enums_productinfo::EContentDescriptorID>,
    /// Field 47.
    pub admin_query: Option<bool>,
    /// Field 48.
    pub special_filter: Option<crate::steammessages_publishedfile_steamclient::EQueryFilesSpecialFilter>,
    /// Field 49.
    pub appids_required_for_use: Vec<u32>,
    /// Field 51.
    pub excluded_appids_required_for_use: Vec<u32>,
    /// Field 50.
    pub search_text_target: Option<crate::steammessages_publishedfile_steamclient::EQueryFilesSearchTextTarget>,
    /// Field 16.
    pub totalonly: Option<bool>,
    /// Field 35.
    pub ids_only: Option<bool>,
    /// Field 17.
    pub return_vote_data: Option<bool>,
    /// Field 18.
    pub return_tags: Option<bool>,
    /// Field 19.
    pub return_kv_tags: Option<bool>,
    /// Field 20.
    pub return_previews: Option<bool>,
    /// Field 21.
    pub return_children: Option<bool>,
    /// Field 22.
    pub return_short_description: Option<bool>,
    /// Field 30.
    pub return_for_sale_data: Option<bool>,
    /// Field 32.
    pub return_metadata: Option<bool>,
    /// Field 36.
    pub return_playtime_stats: Option<u32>,
    /// Field 37.
    pub return_details: Option<bool>,
    /// Field 38.
    pub strip_description_bbcode: Option<bool>,
    /// Field 40.
    pub desired_revision: Option<crate::steammessages_publishedfile_steamclient::EPublishedFileRevision>,
    /// Field 43.
    pub return_reactions: Option<bool>,
}

/// What a `CPublishedFile_QueryFiles_Request` holds, as mathematical values.
#[verifier::ext_equal]
pub struct SpecCPublishedFile_QueryFiles_Request {
    pub query_type: Option<u32>,
    pub page: Option<u32>,
    pub cursor: Option<Seq<char>>,
    pub numperpage: Option<u32>,
    pub creator_appid: Option<u32>,
    pub appid: Option<u32>,
    pub requiredtags: Seq<Seq<char>>,
    pub excludedtags: Seq<Seq<char>>,
    pub match_all_tags: Option<bool>,
    pub required_flags: Seq<Seq<char>>,
    pub omitted_flags: Seq<Seq<char>>,
    pub search_text: Option<Seq<char>>,
    pub filetype: Option<u32>,
    pub child_publishedfileid: Option<u64>,
    pub days: Option<u32>,
    pub include_recent_votes_only: Option<bool>,
    pub cache_max_age_seconds: Option<u32>,
    pub language: Option<i32>,
    pub required_kv_tags: Seq<crate::steammessages_publishedfile_steamclient::c_published_file_query_files_request::SpecKVTag>,
    pub taggroups: Seq<crate::steammessages_publishedfile_steamclient::c_published_file_query_files_request::SpecTagGroup>,
    pub date_range_created: Option<crate::steammessages_publishedfile_steamclient::c_published_file_query_files_request::SpecDateRange>,
    pub date_range_updated: Option<crate::steammessages_publishedfile_steamclient::c_published_file_query_files_request::SpecDateRange>,
    pub excluded_content_descriptors: Seq<i32>,
    pub admin_query: Option<bool>,
    pub special_filter: Option<i32>,
    pub appids_required_for_use: Seq<u32>,
    pub excluded_appids_required_for_use: Seq<u32>,
    pub search_text_target: Option<i32>,
    pub totalonly: Option<bool>,
    pub ids_only: Option<bool>,
    pub return_vote_data: Option<bool>,
    pub return_tags: Option<bool>,
    pub return_kv_tags: Option<bool>,
    pub return_previews: Option<bool>,
    pub return_children: Option<bool>,
    pub return_short_description: Option<bool>,
    pub return_for_sale_data: Option<bool>,
    pub return_metadata: Option<bool>,
    pub return_playtime_stats: Option<u32>,
    pub return_details: Option<bool>,
    pub strip_description_bbcode: Option<bool>,
    pub desired_revision: Option<i32>,
    pub return_reactions: Option<bool>,
}

impl View for CPublishedFile_QueryFiles_Request {
    type V = SpecCPublishedFile_QueryFiles_Request;

    open spec fn view(&self) -> SpecCPublishedFile_QueryFiles_Request {
        SpecCPublishedFile_QueryFiles_Request {
            query_type: self.query_type,
            page: self.page,
            cursor: opt_string_view(self.cursor),
            numperpage: self.numperpage,
            creator_appid: self.creator_appid,
            appid: self.appid,
            requiredtags: strings_view(self.requiredtags@),
            excludedtags: strings_view(self.excludedtags@),
            match_all_tags: self.match_all_tags,
            required_flags: strings_view(self.required_flags@),
            omitted_flags: strings_view(self.omitted_flags@),
            search_text: opt_string_view(self.search_text),
            filetype: self.filetype,
            child_publishedfileid: self.child_publishedfileid,
            days: self.days,
            include_recent_votes_only: self.include_recent_votes_only,
            cache_max_age_seconds: self.cache_max_age_seconds,
            language: self.language,
            required_kv_tags: crate::steammessages_publishedfile_steamclient::c_published_file_query_files_request::KVTag::view_all(self.required_kv_tags@),
            taggroups: crate::steammessages_publishedfile_steamclient::c_published_file_query_files_request::TagGroup::view_all(self.taggroups@),
            date_range_created: crate::steammessages_publishedfile_steamclient::c_published_file_query_files_request::DateRange::view_opt(self.date_range_created),
            date_range_updated: crate::steammessages_publishedfile_steamclient::c_published_file_query_files_request::DateRange::view_opt(self.date_range_updated),
            excluded_content_descriptors: crate::enums_productinfo::EContentDescriptorID::values(self.excluded_content_descriptors@),
            admin_query: self.admin_query,
            special_filter: match self.special_filter { Some(e) => Some(e.0), None => None },
            appids_required_for_use: self.appids_required_for_use@,
            excluded_appids_required_for_use: self.excluded_appids_required_for_use@,
            search_text_target: match self.search_text_target { Some(e) => Some(e.0), None => None },
            totalonly: self.totalonly,
            ids_only: self.ids_only,
            return_vote_data: self.return_vote_data,
            return_tags: self.return_tags,
            return_kv_tags: self.return_kv_tags,
            return_previews: self.return_previews,
            return_children: self.return_children,
            return_short_description: self.return_short_description,
            return_for_sale_data: self.return_for_sale_data,
            return_metadata: self.return_metadata,
            return_playtime_stats: self.return_playtime_stats,
            return_details: self.return_details,
            strip_description_bbcode: self.strip_description_bbcode,
            desired_revision: match self.desired_revision { Some(e) => Some(e.0), None => None },
            return_reactions: self.return_reactions,
        }
    }
}

impl Default for CPublishedFile_QueryFiles_Request {
    fn default() -> (r: Self)
        ensures
            r@ == CPublishedFile_QueryFiles_Request::spec_default(),
    {
        CPublishedFile_QueryFiles_Request {
            query_type: None,
            page: None,
            cursor: None,
            numperpage: None,
            creator_appid: None,
            appid: None,
            requiredtags: Vec::new(),
            excludedtags: Vec::new(),
            match_all_tags: None,
            required_flags: Vec::new(),
            omitted_flags: Vec::new(),
            search_text: None,
            filetype: None,
            child_publishedfileid: None,
            days: None,
            include_recent_votes_only: None,
            cache_max_age_seconds: None,
            language: None,
            required_kv_tags: Vec::new(),
            taggroups: Vec::new(),
            date_range_created: None,
            date_range_updated: None,
            excluded_content_descriptors: Vec::new(),
            admin_query: None,
            special_filter: None,
            appids_required_for_use: Vec::new(),
            excluded_appids_required_for_use: Vec::new(),
            search_text_target: None,
            totalonly: None,
            ids_only: None,
            return_vote_data: None,
            return_tags: None,
            return_kv_tags: None,
            return_previews: None,
            return_children: None,
            return_short_description: None,
            return_for_sale_data: None,
            return_metadata: None,
            return_playtime_stats: None,
            return_details: None,
            strip_description_bbcode: None,
            desired_revision: None,
            return_reactions: None,
        }
    }
}

impl CPublishedFile_QueryFiles_Request {
    /// Field 3, or its schema default when absent.
    pub fn numperpage_or_default(&self) -> (r: u32)
        ensures
            r == match self.numperpage {
                Some(x) => x,
                None => 1u32,
            },
    {
        self.numperpage.unwrap_or(1u32)
    }

    /// Field 8, or its schema default when absent.
    pub fn match_all_tags_or_default(&self) -> (r: bool)
        ensures
            r == match self.match_all_tags {
                Some(x) => x,
                None => true,
            },
    {
        self.match_all_tags.unwrap_or(true)
    }

    /// Field 31, or its schema default when absent.
    pub fn cache_max_age_seconds_or_default(&self) -> (r: u32)
        ensures
            r == match self.cache_max_age_seconds {
                Some(x) => x,
                None => 0u32,
            },
    {
        self.cache_max_age_seconds.unwrap_or(0u32)
    }

    /// Field 33, or its schema default when absent.
    pub fn language_or_default(&self) -> (r: i32)
        ensures
            r == match self.language {
                Some(x) => x,
                None => 0i32,
            },
    {
        self.language.unwrap_or(0i32)
    }

    /// Field 48, or its schema default when absent.
    pub fn special_filter_or_default(&self) -> (r: crate::steammessages_publishedfile_steamclient::EQueryFilesSpecialFilter)
        ensures
            r == match self.special_filter {
                Some(e) => e,
                None => crate::steammessages_publishedfile_steamclient::EQueryFilesSpecialFilter(0),
            },
    {
        match self.special_filter {
            Some(e) => e,
            None => crate::steammessages_publishedfile_steamclient::EQueryFilesSpecialFilter::k_EQueryFilesSpecialFilter_None(),
        }
    }

    /// Field 50, or its schema default when absent.
    pub fn search_text_target_or_default(&self) -> (r: crate::steammessages_publishedfile_steamclient::EQueryFilesSearchTextTarget)
        ensures
            r == match self.search_text_target {
                Some(e) => e,
                None => crate::steammessages_publishedfile_steamclient::EQueryFilesSearchTextTarget(0),
            },
    {
        match self.search_text_target {
            Some(e) => e,
            None => crate::steammessages_publishedfile_steamclient::EQueryFilesSearchTextTarget::k_EQueryFilesSearchTextTarget_AllText(),
        }
    }

    /// Field 32, or its schema default when absent.
    pub fn return_metadata_or_default(&self) -> (r: bool)
        ensures
            r == match self.return_metadata {
                Some(x) => x,
                None => false,
            },
    {
        self.return_metadata.unwrap_or(false)
    }

    /// Field 40, or its schema default when absent.
    pub fn desired_revision_or_default(&self) -> (r: crate::steammessages_publishedfile_steamclient::EPublishedFileRevision)
        ensures
            r == match self.desired_revision {
                Some(e) => e,
                None => crate::steammessages_publishedfile_steamclient::EPublishedFileRevision(0),
            },
    {
        match self.desired_revision {
            Some(e) => e,
            None => crate::steammessages_publishedfile_steamclient::EPublishedFileRevision::k_EPublishedFileRevision_Default(),
        }
    }

    /// Field 43, or its schema default when absent.
    pub fn return_reactions_or_default(&self) -> (r: bool)
        ensures
            r == match self.return_reactions {
                Some(x) => x,
                None => false,
            },
    {
        self.return_reactions.unwrap_or(false)
    }

    pub open spec fn spec_default() -> SpecCPublishedFile_QueryFiles_Request {
        SpecCPublishedFile_QueryFiles_Request {
            query_type: None,
            page: None,
            cursor: None,
            numperpage: None,
            creator_appid: None,
            appid: None,
            requiredtags: Seq::empty(),
            excludedtags: Seq::empty(),
            match_all_tags: None,
            required_flags: Seq::empty(),
            omitted_flags: Seq::empty(),
            search_text: None,
            filetype: None,
            child_publishedfileid: None,
            days: None,
            include_recent_votes_only: None,
            cache_max_age_seconds: None,
            language: None,
            required_kv_tags: Seq::empty(),
            taggroups: Seq::empty(),
            date_range_created: None,
            date_range_updated: None,
            excluded_content_descriptors: Seq::empty(),
            admin_query: None,
            special_filter: None,
            appids_required_for_use: Seq::empty(),
            excluded_appids_required_for_use: Seq::empty(),
            search_text_target: None,
            totalonly: None,
            ids_only: None,
            return_vote_data: None,
            return_tags: None,
            return_kv_tags: None,
            return_previews: None,
            return_children: None,
            return_short_description: None,
            return_for_sale_data: None,
            return_metadata: None,
            return_playtime_stats: None,
            return_details: None,
            strip_description_bbcode: None,
            desired_revision: None,
            return_reactions: None,
        }
    }

    /// The records a `CPublishedFile_QueryFiles_Request` is written as, in field order.
    pub open spec fn spec_fields(v: SpecCPublishedFile_QueryFiles_Request) -> Seq<SpecField> {
        Seq::<SpecField>::empty()
            + opt_u32(1, v.query_type)
            + opt_u32(2, v.page)
            + opt_string(39, v.cursor)
            + opt_u32(3, v.numperpage)
            + opt_u32(4, v.creator_appid)
            + opt_u32(5, v.appid)
            + rep_string(6, v.requiredtags)
            + rep_string(7, v.excludedtags)
            + opt_bool(8, v.match_all_tags)
            + rep_string(9, v.required_flags)
            + rep_string(10, v.omitted_flags)
            + opt_string(11, v.search_text)
            + opt_u32(12, v.filetype)
            + opt_fixed64(13, v.child_publishedfileid)
            + opt_u32(14, v.days)
            + opt_bool(15, v.include_recent_votes_only)
            + opt_u32(31, v.cache_max_age_seconds)
            + opt_i32(33, v.language)
            + rep_bytes(34, crate::steammessages_publishedfile_steamclient::c_published_file_query_files_request::KVTag::spec_encode_all(v.required_kv_tags))
            + rep_bytes(42, crate::steammessages_publishedfile_steamclient::c_published_file_query_files_request::TagGroup::spec_encode_all(v.taggroups))
            + opt_bytes(44, crate::steammessages_publishedfile_steamclient::c_published_file_query_files_request::DateRange::spec_encode_opt(v.date_range_created))
            + opt_bytes(45, crate::steammessages_publishedfile_steamclient::c_published_file_query_files_request::DateRange::spec_encode_opt(v.date_range_updated))
            + rep_i32(46, v.excluded_content_descriptors)
            + opt_bool(47, v.admin_query)
            + opt_i32(48, v.special_filter)
            + rep_u32(49, v.appids_required_for_use)
            + rep_u32(51, v.excluded_appids_required_for_use)
            + opt_i32(50, v.search_text_target)
            + opt_bool(16, v.totalonly)
            + opt_bool(35, v.ids_only)
            + opt_bool(17, v.return_vote_data)
            + opt_bool(18, v.return_tags)
            + opt_bool(19, v.return_kv_tags)
            + opt_bool(20, v.return_previews)
            + opt_bool(21, v.return_children)
            + opt_bool(22, v.return_short_description)
            + opt_bool(30, v.return_for_sale_data)
            + opt_bool(32, v.return_metadata)
            + opt_u32(36, v.return_playtime_stats)
            + opt_bool(37, v.return_details)
            + opt_bool(38, v.strip_description_bbcode)
            + opt_i32(40, v.desired_revision)
            + opt_bool(43, v.return_reactions)
    }

    #[verifier::opaque]
    pub open spec fn spec_encode(v: SpecCPublishedFile_QueryFiles_Request) -> Seq<u8> {
        fields_bytes(Self::spec_fields(v))
    }

    /// What one record does to the message: a declared number sets or extends its
    /// field, any other number is left alone.
    pub open spec fn spec_apply(v: SpecCPublishedFile_QueryFiles_Request, f: SpecField) -> Result<SpecCPublishedFile_QueryFiles_Request, WireError> {
        match f.number {
            1 => match dec_u32(f.value) {
                Ok(x) => Ok(SpecCPublishedFile_QueryFiles_Request { query_type: Some(x), ..v }),
                Err(e) => Err(e),
            },
            2 => match dec_u32(f.value) {
                Ok(x) => Ok(SpecCPublishedFile_QueryFiles_Request { page: Some(x), ..v }),
                Err(e) => Err(e),
            },
            39 => match dec_string(f.value) {
                Ok(x) => Ok(SpecCPublishedFile_QueryFiles_Request { cursor: Some(x), ..v }),
                Err(e) => Err(e),
            },
            3 => match dec_u32(f.value) {
                Ok(x) => Ok(SpecCPublishedFile_QueryFiles_Request { numperpage: Some(x), ..v }),
                Err(e) => Err(e),
            },
            4 => match dec_u32(f.value) {
                Ok(x) => Ok(SpecCPublishedFile_QueryFiles_Request { creator_appid: Some(x), ..v }),
                Err(e) => Err(e),
            },
            5 => match dec_u32(f.value) {
                Ok(x) => Ok(SpecCPublishedFile_QueryFiles_Request { appid: Some(x), ..v }),
                Err(e) => Err(e),
            },
            6 => match dec_string(f.value) {
                Ok(x) => Ok(SpecCPublishedFile_QueryFiles_Request { requiredtags: v.requiredtags.push(x), ..v }),
                Err(e) => Err(e),
            },
            7 => match dec_string(f.value) {
                Ok(x) => Ok(SpecCPublishedFile_QueryFiles_Request { excludedtags: v.excludedtags.push(x), ..v }),
                Err(e) => Err(e),
            },
            8 => match dec_bool(f.value) {
                Ok(x) => Ok(SpecCPublishedFile_QueryFiles_Request { match_all_tags: Some(x), ..v }),
                Err(e) => Err(e),
            },
            9 => match dec_string(f.value) {
                Ok(x) => Ok(SpecCPublishedFile_QueryFiles_Request { required_flags: v.required_flags.push(x), ..v }),
                Err(e) => Err(e),
            },
            10 => match dec_string(f.value) {
                Ok(x) => Ok(SpecCPublishedFile_QueryFiles_Request { omitted_flags: v.omitted_flags.push(x), ..v }),
                Err(e) => Err(e),
            },
            11 => match dec_string(f.value) {
                Ok(x) => Ok(SpecCPublishedFile_QueryFiles_Request { search_text: Some(x), ..v }),
                Err(e) => Err(e),
            },
            12 => match dec_u32(f.value) {
                Ok(x) => Ok(SpecCPublishedFile_QueryFiles_Request { filetype: Some(x), ..v }),
                Err(e) => Err(e),
            },
            13 => match dec_fixed64(f.value) {
                Ok(x) => Ok(SpecCPublishedFile_QueryFiles_Request { child_publishedfileid: Some(x), ..v }),
                Err(e) => Err(e),
            },
            14 => match dec_u32(f.value) {
                Ok(x) => Ok(SpecCPublishedFile_QueryFiles_Request { days: Some(x), ..v }),
                Err(e) => Err(e),
            },
            15 => match dec_bool(f.value) {
                Ok(x) => Ok(SpecCPublishedFile_QueryFiles_Request { include_recent_votes_only: Some(x), ..v }),
                Err(e) => Err(e),
            },
            31 => match dec_u32(f.value) {
                Ok(x) => Ok(SpecCPublishedFile_QueryFiles_Request { cache_max_age_seconds: Some(x), ..v }),
                Err(e) => Err(e),
            },
            33 => match dec_i32(f.value) {
                Ok(x) => Ok(SpecCPublishedFile_QueryFiles_Request { language: Some(x), ..v }),
                Err(e) => Err(e),
            },
            34 => match dec_bytes(f.value) {
                Ok(b) => match crate::steammessages_publishedfile_steamclient::c_published_file_query_files_request::KVTag::spec_decode(b) {
                    Ok(m) => Ok(SpecCPublishedFile_QueryFiles_Request { required_kv_tags: v.required_kv_tags.push(m), ..v }),
                    Err(e) => Err(e),
                },
                Err(e) => Err(e),
            },
            42 => match dec_bytes(f.value) {
                Ok(b) => match crate::steammessages_publishedfile_steamclient::c_published_file_query_files_request::TagGroup::spec_decode(b) {
                    Ok(m) => Ok(SpecCPublishedFile_QueryFiles_Request { taggroups: v.taggroups.push(m), ..v }),
                    Err(e) => Err(e),
                },
                Err(e) => Err(e),
            },
            44 => match dec_bytes(f.value) {
                Ok(b) => match crate::steammessages_publishedfile_steamclient::c_published_file_query_files_request::DateRange::spec_decode(b) {
                    Ok(m) => Ok(SpecCPublishedFile_QueryFiles_Request { date_range_created: Some(m), ..v }),
                    Err(e) => Err(e),
                },
                Err(e) => Err(e),
            },
            45 => match dec_bytes(f.value) {
                Ok(b) => match crate::steammessages_publishedfile_steamclient::c_published_file_query_files_request::DateRange::spec_decode(b) {
                    Ok(m) => Ok(SpecCPublishedFile_QueryFiles_Request { date_range_updated: Some(m), ..v }),
                    Err(e) => Err(e),
                },
                Err(e) => Err(e),
            },
            46 => match dec_packed_i32(f.value) {
                Ok(xs) => Ok(SpecCPublishedFile_QueryFiles_Request { excluded_content_descriptors: v.excluded_content_descriptors + xs, ..v }),
                Err(e) => Err(e),
            },
            47 => match dec_bool(f.value) {
                Ok(x) => Ok(SpecCPublishedFile_QueryFiles_Request { admin_query: Some(x), ..v }),
                Err(e) => Err(e),
            },
            48 => match dec_i32(f.value) {
                Ok(x) => Ok(SpecCPublishedFile_QueryFiles_Request { special_filter: Some(x), ..v }),
                Err(e) => Err(e),
            },
            49 => match dec_packed_u32(f.value) {
                Ok(xs) => Ok(SpecCPublishedFile_QueryFiles_Request { appids_required_for_use: v.appids_required_for_use + xs, ..v }),
                Err(e) => Err(e),
            },
            51 => match dec_packed_u32(f.value) {
                Ok(xs) => Ok(SpecCPublishedFile_QueryFiles_Request { excluded_appids_required_for_use: v.excluded_appids_required_for_use + xs, ..v }),
                Err(e) => Err(e),
            },
            50 => match dec_i32(f.value) {
                Ok(x) => Ok(SpecCPublishedFile_QueryFiles_Request { search_text_target: Some(x), ..v }),
                Err(e) => Err(e),
            },
            16 => match dec_bool(f.value) {
                Ok(x) => Ok(SpecCPublishedFile_QueryFiles_Request { totalonly: Some(x), ..v }),
                Err(e) => Err(e),
            },
            35 => match dec_bool(f.value) {
                Ok(x) => Ok(SpecCPublishedFile_QueryFiles_Request { ids_only: Some(x), ..v }),
                Err(e) => Err(e),
            },
            17 => match dec_bool(f.value) {
                Ok(x) => Ok(SpecCPublishedFile_QueryFiles_Request { return_vote_data: Some(x), ..v }),
                Err(e) => Err(e),
            },
            18 => match dec_bool(f.value) {
                Ok(x) => Ok(SpecCPublishedFile_QueryFiles_Request { return_tags: Some(x), ..v }),
                Err(e) => Err(e),
            },
            19 => match dec_bool(f.value) {
                Ok(x) => Ok(SpecCPublishedFile_QueryFiles_Request { return_kv_tags: Some(x), ..v }),
                Err(e) => Err(e),
            },
            20 => match dec_bool(f.value) {
                Ok(x) => Ok(SpecCPublishedFile_QueryFiles_Request { return_previews: Some(x), ..v }),
                Err(e) => Err(e),
            },
            21 => match dec_bool(f.value) {
                Ok(x) => Ok(SpecCPublishedFile_QueryFiles_Request { return_children: Some(x), ..v }),
                Err(e) => Err(e),
            },
            22 => match dec_bool(f.value) {
                Ok(x) => Ok(SpecCPublishedFile_QueryFiles_Request { return_short_description: Some(x), ..v }),
                Err(e) => Err(e),
            },
            30 => match dec_bool(f.value) {
                Ok(x) => Ok(SpecCPublishedFile_QueryFiles_Request { return_for_sale_data: Some(x), ..v }),
                Err(e) => Err(e),
            },
            32 => match dec_bool(f.value) {
                Ok(x) => Ok(SpecCPublishedFile_QueryFiles_Request { return_metadata: Some(x), ..v }),
                Err(e) => Err(e),
            },
            36 => match dec_u32(f.value) {
                Ok(x) => Ok(SpecCPublishedFile_QueryFiles_Request { return_playtime_stats: Some(x), ..v }),
                Err(e) => Err(e),
            },
            37 => match dec_bool(f.value) {
                Ok(x) => Ok(SpecCPublishedFile_QueryFiles_Request { return_details: Some(x), ..v }),
                Err(e) => Err(e),
            },
            38 => match dec_bool(f.value) {
                Ok(x) => Ok(SpecCPublishedFile_QueryFiles_Request { strip_description_bbcode: Some(x), ..v }),
                Err(e) => Err(e),
            },
            40 => match dec_i32(f.value) {
                Ok(x) => Ok(SpecCPublishedFile_QueryFiles_Request { desired_revision: Some(x), ..v }),
                Err(e) => Err(e),
            },
            43 => match dec_bool(f.value) {
                Ok(x) => Ok(SpecCPublishedFile_QueryFiles_Request { return_reactions: Some(x), ..v }),
                Err(e) => Err(e),
            },
            _ => Ok(v),
        }
    }

    pub open spec fn apply_fn() -> spec_fn(SpecCPublishedFile_QueryFiles_Request, SpecField) -> Result<SpecCPublishedFile_QueryFiles_Request, WireError> {
        |v: SpecCPublishedFile_QueryFiles_Request, f: SpecField| Self::spec_apply(v, f)
    }

    /// The message `bytes` makes of `v`: its records applied in order, or the error
    /// that stops the reading.
    pub open spec fn spec_merge(v: SpecCPublishedFile_QueryFiles_Request, bytes: Seq<u8>) -> Result<SpecCPublishedFile_QueryFiles_Request, WireError> {
        let (w, stop) = merge_run(v, bytes, Self::apply_fn());
        match stop {
            None => Ok(w),
            Some(e) => Err(e),
        }
    }

    #[verifier::opaque]
    pub open spec fn spec_decode(bytes: Seq<u8>) -> Result<SpecCPublishedFile_QueryFiles_Request, WireError> {
        Self::spec_merge(Self::spec_default(), bytes)
    }

    /// This message with one record applied to it, or, when the record is refused,
    /// the message unchanged and the reason.
    fn applied(self, f: &Field) -> (r: Result<Self, (Self, WireError)>)
        ensures
            match Self::spec_apply(self@, f@) {
                Ok(v) => r matches Ok(m) && m@ == v,
                Err(e) => r matches Err((m, x)) && x == e && m@ == self@,
            },
    {
        if f.number <= 4 {
            self.applied_0(f)
        } else if f.number <= 8 {
            self.applied_1(f)
        } else if f.number <= 12 {
            self.applied_2(f)
        } else if f.number <= 16 {
            self.applied_3(f)
        } else if f.number <= 20 {
            self.applied_4(f)
        } else if f.number <= 31 {
            self.applied_5(f)
        } else if f.number <= 35 {
            self.applied_6(f)
        } else if f.number <= 39 {
            self.applied_7(f)
        } else if f.number <= 44 {
            self.applied_8(f)
        } else if f.number <= 48 {
            self.applied_9(f)
        } else {
            self.applied_10(f)
        }
    }

    /// `applied`, for the records numbered up to 4.
    #[verifier::rlimit(40)]
    fn applied_0(self, f: &Field) -> (r: Result<Self, (Self, WireError)>)
        requires
            f.number <= 4,
        ensures
            match Self::spec_apply(self@, f@) {
                Ok(v) => r matches Ok(m) && m@ == v,
                Err(e) => r matches Err((m, x)) && x == e && m@ == self@,
            },
    {
        match f.number {
            1 => match read_u32(&f.value) {
                Ok(x) => Ok(Self { query_type: Some(x), ..self }),
                Err(e) => Err((self, e)),
            },
            2 => match read_u32(&f.value) {
                Ok(x) => Ok(Self { page: Some(x), ..self }),
                Err(e) => Err((self, e)),
            },
            3 => match read_u32(&f.value) {
                Ok(x) => Ok(Self { numperpage: Some(x), ..self }),
                Err(e) => Err((self, e)),
            },
            4 => match read_u32(&f.value) {
                Ok(x) => Ok(Self { creator_appid: Some(x), ..self }),
                Err(e) => Err((self, e)),
            },
            _ => Ok(self),
        }
    }

    /// `applied`, for the records numbered from 5 to 8.
    #[verifier::rlimit(40)]
    fn applied_1(self, f: &Field) -> (r: Result<Self, (Self, WireError)>)
        requires
            4 < f.number,
            f.number <= 8,
        ensures
            match Self::spec_apply(self@, f@) {
                Ok(v) => r matches Ok(m) && m@ == v,
                Err(e) => r matches Err((m, x)) && x == e && m@ == self@,
            },
    {
        match f.number {
            5 => match read_u32(&f.value) {
                Ok(x) => Ok(Self { appid: Some(x), ..self }),
                Err(e) => Err((self, e)),
            },
            6 => match read_string(&f.value) {
                Ok(x) => {
                    let mut m = self;
                    let ghost before = m.requiredtags@;
                    m.requiredtags.push(x);
                    assert(strings_view(m.requiredtags@) =~= strings_view(before).push(x@));
                    Ok(m)
                },
                Err(e) => Err((self, e)),
            },
            7 => match read_string(&f.value) {
                Ok(x) => {
                    let mut m = self;
                    let ghost before = m.excludedtags@;
                    m.excludedtags.push(x);
                    assert(strings_view(m.excludedtags@) =~= strings_view(before).push(x@));
                    Ok(m)
                },
                Err(e) => Err((self, e)),
            },
            8 => match read_bool(&f.value) {
                Ok(x) => Ok(Self { match_all_tags: Some(x), ..self }),
                Err(e) => Err((self, e)),
            },
            _ => Ok(self),
        }
    }

    /// `applied`, for the records numbered from 9 to 12.
    #[verifier::rlimit(40)]
    fn applied_2(self, f: &Field) -> (r: Result<Self, (Self, WireError)>)
        requires
            8 < f.number,
            f.number <= 12,
        ensures
            match Self::spec_apply(self@, f@) {
                Ok(v) => r matches Ok(m) && m@ == v,
                Err(e) => r matches Err((m, x)) && x == e && m@ == self@,
            },
    {
        match f.number {
            9 => match read_string(&f.value) {
                Ok(x) => {
                    let mut m = self;
                    let ghost before = m.required_flags@;
                    m.required_flags.push(x);
                    assert(strings_view(m.required_flags@) =~= strings_view(before).push(x@));
                    Ok(m)
                },
                Err(e) => Err((self, e)),
            },
            10 => match read_string(&f.value) {
                Ok(x) => {
                    let mut m = self;
                    let ghost before = m.omitted_flags@;
                    m.omitted_flags.push(x);
                    assert(strings_view(m.omitted_flags@) =~= strings_view(before).push(x@));
                    Ok(m)
                },
                Err(e) => Err((self, e)),
            },
            11 => match read_string(&f.value) {
                Ok(x) => Ok(Self { search_text: Some(x), ..self }),
                Err(e) => Err((self, e)),
            },
            12 => match read_u32(&f.value) {
                Ok(x) => Ok(Self { filetype: Some(x), ..self }),
                Err(e) => Err((self, e)),
            },
            _ => Ok(self),
        }
    }

    /// `applied`, for the records numbered from 13 to 16.
    #[verifier::rlimit(40)]
    fn applied_3(self, f: &Field) -> (r: Result<Self, (Self, WireError)>)
        requires
            12 < f.number,
            f.number <= 16,
        ensures
            match Self::spec_apply(self@, f@) {
                Ok(v) => r matches Ok(m) && m@ == v,
                Err(e) => r matches Err((m, x)) && x == e && m@ == self@,
            },
    {
        match f.number {
            13 => match read_fixed64(&f.value) {
                Ok(x) => Ok(Self { child_publishedfileid: Some(x), ..self }),
                Err(e) => Err((self, e)),
            },
            14 => match read_u32(&f.value) {
                Ok(x) => Ok(Self { days: Some(x), ..self }),
                Err(e) => Err((self, e)),
            },
            15 => match read_bool(&f.value) {
                Ok(x) => Ok(Self { include_recent_votes_only: Some(x), ..self }),
                Err(e) => Err((self, e)),
            },
            16 => match read_bool(&f.value) {
                Ok(x) => Ok(Self { totalonly: Some(x), ..self }),
                Err(e) => Err((self, e)),
            },
            _ => Ok(self),
        }
    }

    /// `applied`, for the records numbered from 17 to 20.
    #[verifier::rlimit(40)]
    fn applied_4(self, f: &Field) -> (r: Result<Self, (Self, WireError)>)
        requires
            16 < f.number,
            f.number <= 20,
        ensures
            match Self::spec_apply(self@, f@) {
                Ok(v) => r matches Ok(m) && m@ == v,
                Err(e) => r matches Err((m, x)) && x == e && m@ == self@,
            },
    {
        match f.number {
            17 => match read_bool(&f.value) {
                Ok(x) => Ok(Self { return_vote_data: Some(x), ..self }),
                Err(e) => Err((self, e)),
            },
            18 => match read_bool(&f.value) {
                Ok(x) => Ok(Self { return_tags: Some(x), ..self }),
                Err(e) => Err((self, e)),
            },
            19 => match read_bool(&f.value) {
                Ok(x) => Ok(Self { return_kv_tags: Some(x), ..self }),
                Err(e) => Err((self, e)),
            },
            20 => match read_bool(&f.value) {
                Ok(x) => Ok(Self { return_previews: Some(x), ..self }),
                Err(e) => Err((self, e)),
            },
            _ => Ok(self),
        }
    }

    /// `applied`, for the records numbered from 21 to 31.
    #[verifier::rlimit(40)]
    fn applied_5(self, f: &Field) -> (r: Result<Self, (Self, WireError)>)
        requires
            20 < f.number,
            f.number <= 31,
        ensures
            match Self::spec_apply(self@, f@) {
                Ok(v) => r matches Ok(m) && m@ == v,
                Err(e) => r matches Err((m, x)) && x == e && m@ == self@,
            },
    {
        match f.number {
            21 => match read_bool(&f.value) {
                Ok(x) => Ok(Self { return_children: Some(x), ..self }),
                Err(e) => Err((self, e)),
            },
            22 => match read_bool(&f.value) {
                Ok(x) => Ok(Self { return_short_description: Some(x), ..self }),
                Err(e) => Err((self, e)),
            },
            30 => match read_bool(&f.value) {
                Ok(x) => Ok(Self { return_for_sale_data: Some(x), ..self }),
                Err(e) => Err((self, e)),
            },
            31 => match read_u32(&f.value) {
                Ok(x) => Ok(Self { cache_max_age_seconds: Some(x), ..self }),
                Err(e) => Err((self, e)),
            },
            _ => Ok(self),
        }
    }

    /// `applied`, for the records numbered from 32 to 35.
    #[verifier::rlimit(40)]
    fn applied_6(self, f: &Field) -> (r: Result<Self, (Self, WireError)>)
        requires
            31 < f.number,
            f.number <= 35,
        ensures
            match Self::spec_apply(self@, f@) {
                Ok(v) => r matches Ok(m) && m@ == v,
                Err(e) => r matches Err((m, x)) && x == e && m@ == self@,
            },
    {
        match f.number {
            32 => match read_bool(&f.value) {
                Ok(x) => Ok(Self { return_metadata: Some(x), ..self }),
                Err(e) => Err((self, e)),
            },
            33 => match read_i32(&f.value) {
                Ok(x) => Ok(Self { language: Some(x), ..self }),
                Err(e) => Err((self, e)),
            },
            34 => match read_payload(&f.value) {
                Ok(b) => match crate::steammessages_publishedfile_steamclient::c_published_file_query_files_request::KVTag::decode(b) {
                    Ok(x) => {
                        let mut m = self;
                        let ghost before = m.required_kv_tags@;
                        m.required_kv_tags.push(x);
                        assert(crate::steammessages_publishedfile_steamclient::c_published_file_query_files_request::KVTag::view_all(m.required_kv_tags@) =~= crate::steammessages_publishedfile_steamclient::c_published_file_query_files_request::KVTag::view_all(before).push(x@));
                        Ok(m)
                    },
                    Err(e) => Err((self, e)),
                },
                Err(e) => Err((self, e)),
            },
            35 => match read_bool(&f.value) {
                Ok(x) => Ok(Self { ids_only: Some(x), ..self }),
                Err(e) => Err((self, e)),
            },
            _ => Ok(self),
        }
    }

    /// `applied`, for the records numbered from 36 to 39.
    #[verifier::rlimit(40)]
    fn applied_7(self, f: &Field) -> (r: Result<Self, (Self, WireError)>)
        requires
            35 < f.number,
            f.number <= 39,
        ensures
            match Self::spec_apply(self@, f@) {
                Ok(v) => r matches Ok(m) && m@ == v,
                Err(e) => r matches Err((m, x)) && x == e && m@ == self@,
            },
    {
        match f.number {
            36 => match read_u32(&f.value) {
                Ok(x) => Ok(Self { return_playtime_stats: Some(x), ..self }),
                Err(e) => Err((self, e)),
            },
            37 => match read_bool(&f.value) {
                Ok(x) => Ok(Self { return_details: Some(x), ..self }),
                Err(e) => Err((self, e)),
            },
            38 => match read_bool(&f.value) {
                Ok(x) => Ok(Self { strip_description_bbcode: Some(x), ..self }),
                Err(e) => Err((self, e)),
            },
            39 => match read_string(&f.value) {
                Ok(x) => Ok(Self { cursor: Some(x), ..self }),
                Err(e) => Err((self, e)),
            },
            _ => Ok(self),
        }
    }

    /// `applied`, for the records numbered from 40 to 44.
    #[verifier::rlimit(40)]
    fn applied_8(self, f: &Field) -> (r: Result<Self, (Self, WireError)>)
        requires
            39 < f.number,
            f.number <= 44,
        ensures
            match Self::spec_apply(self@, f@) {
                Ok(v) => r matches Ok(m) && m@ == v,
                Err(e) => r matches Err((m, x)) && x == e && m@ == self@,
            },
    {
        match f.number {
            40 => match read_i32(&f.value) {
                Ok(x) => Ok(Self { desired_revision: Some(crate::steammessages_publishedfile_steamclient::EPublishedFileRevision(x)), ..self }),
                Err(e) => Err((self, e)),
            },
            42 => match read_payload(&f.value) {
                Ok(b) => match crate::steammessages_publishedfile_steamclient::c_published_file_query_files_request::TagGroup::decode(b) {
                    Ok(x) => {
                        let mut m = self;
                        let ghost before = m.taggroups@;
                        m.taggroups.push(x);
                        assert(crate::steammessages_publishedfile_steamclient::c_published_file_query_files_request::TagGroup::view_all(m.taggroups@) =~= crate::steammessages_publishedfile_steamclient::c_published_file_query_files_request::TagGroup::view_all(before).push(x@));
                        Ok(m)
                    },
                    Err(e) => Err((self, e)),
                },
                Err(e) => Err((self, e)),
            },
            43 => match read_bool(&f.value) {
                Ok(x) => Ok(Self { return_reactions: Some(x), ..self }),
                Err(e) => Err((self, e)),
            },
            44 => match read_payload(&f.value) {
                Ok(b) => match crate::steammessages_publishedfile_steamclient::c_published_file_query_files_request::DateRange::decode(b) {
                    Ok(m) => Ok(Self { date_range_created: Some(m), ..self }),
                    Err(e) => Err((self, e)),
                },
                Err(e) => Err((self, e)),
            },
            _ => Ok(self),
        }
    }

    /// `applied`, for the records numbered from 45 to 48.
    #[verifier::rlimit(40)]
    fn applied_9(self, f: &Field) -> (r: Result<Self, (Self, WireError)>)
        requires
            44 < f.number,
            f.number <= 48,
        ensures
            match Self::spec_apply(self@, f@) {
                Ok(v) => r matches Ok(m) && m@ == v,
                Err(e) => r matches Err((m, x)) && x == e && m@ == self@,
            },
    {
        match f.number {
            45 => match read_payload(&f.value) {
                Ok(b) => match crate::steammessages_publishedfile_steamclient::c_published_file_query_files_request::DateRange::decode(b) {
                    Ok(m) => Ok(Self { date_range_updated: Some(m), ..self }),
                    Err(e) => Err((self, e)),
                },
                Err(e) => Err((self, e)),
            },
            46 => match read_packed_i32(&f.value) {
                Ok(xs) => {
                    let mut m = self;
                    let ghost before = m.excluded_content_descriptors@;
                    let mut es = crate::enums_productinfo::EContentDescriptorID::from_values(&xs);
                    let ghost added = es@;
                    m.excluded_content_descriptors.append(&mut es);
                    assert(crate::enums_productinfo::EContentDescriptorID::values(m.excluded_content_descriptors@) =~= crate::enums_productinfo::EContentDescriptorID::values(before) + crate::enums_productinfo::EContentDescriptorID::values(added));
                    Ok(m)
                },
                Err(e) => Err((self, e)),
            },
            47 => match read_bool(&f.value) {
                Ok(x) => Ok(Self { admin_query: Some(x), ..self }),
                Err(e) => Err((self, e)),
            },
            48 => match read_i32(&f.value) {
                Ok(x) => Ok(Self { special_filter: Some(crate::steammessages_publishedfile_steamclient::EQueryFilesSpecialFilter(x)), ..self }),
                Err(e) => Err((self, e)),
            },
            _ => Ok(self),
        }
    }

    /// `applied`, for the records numbered above 48.
    #[verifier::rlimit(40)]
    fn applied_10(self, f: &Field) -> (r: Result<Self, (Self, WireError)>)
        requires
            48 < f.number,
        ensures
            match Self::spec_apply(self@, f@) {
                Ok(v) => r matches Ok(m) && m@ == v,
                Err(e) => r matches Err((m, x)) && x == e && m@ == self@,
            },
    {
        match f.number {
            49 => match read_packed_u32(&f.value) {
                Ok(xs) => {
                    let mut m = self;
                    let mut xs = xs;
                    m.appids_required_for_use.append(&mut xs);
                    Ok(m)
                },
                Err(e) => Err((self, e)),
            },
            50 => match read_i32(&f.value) {
                Ok(x) => Ok(Self { search_text_target: Some(crate::steammessages_publishedfile_steamclient::EQueryFilesSearchTextTarget(x)), ..self }),
                Err(e) => Err((self, e)),
            },
            51 => match read_packed_u32(&f.value) {
                Ok(xs) => {
                    let mut m = self;
                    let mut xs = xs;
                    m.excluded_appids_required_for_use.append(&mut xs);
                    Ok(m)
                },
                Err(e) => Err((self, e)),
            },
            _ => Ok(self),
        }
    }

    /// Reads the records `bytes` holds into this message, in order. When a record does
    /// not parse or is refused, the reading stops there: the message keeps what the
    /// records before it gave, and the error is returned.
    pub fn merge(&mut self, bytes: &[u8]) -> (r: Result<(), WireError>)
        ensures
            final(self)@ == merge_run(old(self)@, bytes@, Self::apply_fn()).0,
            r == match merge_run(old(self)@, bytes@, Self::apply_fn()).1 {
                None => Ok::<(), WireError>(()),
                Some(e) => Err::<(), WireError>(e),
            },
    {
        let ghost total = merge_run(self@, bytes@, Self::apply_fn());
        let mut cur = Self::default();
        std::mem::swap(&mut cur, self);
        let mut pos: usize = 0;
        assert(bytes@.skip(0) =~= bytes@);
        while pos < bytes.len()
            invariant
                pos <= bytes@.len(),
                total == merge_run(old(self)@, bytes@, Self::apply_fn()),
                merge_run(cur@, bytes@.skip(pos as int), Self::apply_fn()) == total,
            decreases bytes@.len() - pos,
        {
            let ghost s = bytes@.skip(pos as int);
            proof {
                lemma_merge_run_step(cur@, s, Self::apply_fn());
                lemma_parse_field_len(s);
            }
            match read_field(bytes, pos) {
                Ok((f, end)) => {
                    assert(bytes@.skip(end as int) =~= s.skip((end - pos) as int));
                    match cur.applied(&f) {
                        Ok(m) => {
                            cur = m;
                        },
                        Err((m, e)) => {
                            *self = m;
                            return Err(e);
                        },
                    }
                    pos = end;
                },
                Err(e) => {
                    *self = cur;
                    return Err(e);
                },
            }
        }
        assert(bytes@.skip(pos as int) =~= Seq::<u8>::empty());
        proof {
            lemma_merge_run_empty(cur@, Self::apply_fn());
        }
        *self = cur;
        Ok(())
    }

    /// Decodes a message from its encoding.
    pub fn decode(bytes: &[u8]) -> (r: Result<Self, WireError>)
        ensures
            match Self::spec_decode(bytes@) {
                Ok(v) => r matches Ok(m) && m@ == v,
                Err(e) => r matches Err(x) && x == e,
            },
    {
        proof {
            reveal(CPublishedFile_QueryFiles_Request::spec_decode);
        }
        let mut m = Self::default();
        match m.merge(bytes) {
            Ok(()) => Ok(m),
            Err(e) => Err(e),
        }
    }

    /// The encoding of this message.
    pub fn encode_to_vec(&self) -> (r: Vec<u8>)
        ensures
            r@ == Self::spec_encode(self@),
    {
        let enc_required_kv_tags = crate::steammessages_publishedfile_steamclient::c_published_file_query_files_request::KVTag::encode_all(&self.required_kv_tags);
        let enc_taggroups = crate::steammessages_publishedfile_steamclient::c_published_file_query_files_request::TagGroup::encode_all(&self.taggroups);
        let enc_date_range_created = crate::steammessages_publishedfile_steamclient::c_published_file_query_files_request::DateRange::encode_opt(&self.date_range_created);
        let enc_date_range_updated = crate::steammessages_publishedfile_steamclient::c_published_file_query_files_request::DateRange::encode_opt(&self.date_range_updated);
        let val_excluded_content_descriptors = crate::enums_productinfo::EContentDescriptorID::values_of(&self.excluded_content_descriptors);
        let ghost v = self@;
        let mut out: Vec<u8> = Vec::new();
        let ghost p0 = Seq::<SpecField>::empty();
        put_opt_u32(&mut out, 1, self.query_type);
        let ghost p1 = p0 + opt_u32(1, v.query_type);
        proof {
            lemma_fields_bytes_concat(p0, opt_u32(1, v.query_type));
        }
        put_opt_u32(&mut out, 2, self.page);
        let ghost p2 = p1 + opt_u32(2, v.page);
        proof {
            lemma_fields_bytes_concat(p1, opt_u32(2, v.page));
        }
        put_opt_string(&mut out, 39, &self.cursor);
        let ghost p3 = p2 + opt_string(39, v.cursor);
        proof {
            lemma_fields_bytes_concat(p2, opt_string(39, v.cursor));
        }
        put_opt_u32(&mut out, 3, self.numperpage);
        let ghost p4 = p3 + opt_u32(3, v.numperpage);
        proof {
            lemma_fields_bytes_concat(p3, opt_u32(3, v.numperpage));
        }
        put_opt_u32(&mut out, 4, self.creator_appid);
        let ghost p5 = p4 + opt_u32(4, v.creator_appid);
        proof {
            lemma_fields_bytes_concat(p4, opt_u32(4, v.creator_appid));
        }
        put_opt_u32(&mut out, 5, self.appid);
        let ghost p6 = p5 + opt_u32(5, v.appid);
        proof {
            lemma_fields_bytes_concat(p5, opt_u32(5, v.appid));
        }
        put_rep_string(&mut out, 6, &self.requiredtags);
        let ghost p7 = p6 + rep_string(6, v.requiredtags);
        proof {
            lemma_fields_bytes_concat(p6, rep_string(6, v.requiredtags));
        }
        put_rep_string(&mut out, 7, &self.excludedtags);
        let ghost p8 = p7 + rep_string(7, v.excludedtags);
        proof {
            lemma_fields_bytes_concat(p7, rep_string(7, v.excludedtags));
        }
        put_opt_bool(&mut out, 8, self.match_all_tags);
        let ghost p9 = p8 + opt_bool(8, v.match_all_tags);
        proof {
            lemma_fields_bytes_concat(p8, opt_bool(8, v.match_all_tags));
        }
        put_rep_string(&mut out, 9, &self.required_flags);
        let ghost p10 = p9 + rep_string(9, v.required_flags);
        proof {
            lemma_fields_bytes_concat(p9, rep_string(9, v.required_flags));
        }
        put_rep_string(&mut out, 10, &self.omitted_flags);
        let ghost p11 = p10 + rep_string(10, v.omitted_flags);
        proof {
            lemma_fields_bytes_concat(p10, rep_string(10, v.omitted_flags));
        }
        put_opt_string(&mut out, 11, &self.search_text);
        let ghost p12 = p11 + opt_string(11, v.search_text);
        proof {
            lemma_fields_bytes_concat(p11, opt_string(11, v.search_text));
        }
        put_opt_u32(&mut out, 12, self.filetype);
        let ghost p13 = p12 + opt_u32(12, v.filetype);
        proof {
            lemma_fields_bytes_concat(p12, opt_u32(12, v.filetype));
        }
        put_opt_fixed64(&mut out, 13, self.child_publishedfileid);
        let ghost p14 = p13 + opt_fixed64(13, v.child_publishedfileid);
        proof {
            lemma_fields_bytes_concat(p13, opt_fixed64(13, v.child_publishedfileid));
        }
        put_opt_u32(&mut out, 14, self.days);
        let ghost p15 = p14 + opt_u32(14, v.days);
        proof {
            lemma_fields_bytes_concat(p14, opt_u32(14, v.days));
        }
        put_opt_bool(&mut out, 15, self.include_recent_votes_only);
        let ghost p16 = p15 + opt_bool(15, v.include_recent_votes_only);
        proof {
            lemma_fields_bytes_concat(p15, opt_bool(15, v.include_recent_votes_only));
        }
        put_opt_u32(&mut out, 31, self.cache_max_age_seconds);
        let ghost p17 = p16 + opt_u32(31, v.cache_max_age_seconds);
        proof {
            lemma_fields_bytes_concat(p16, opt_u32(31, v.cache_max_age_seconds));
        }
        put_opt_i32(&mut out, 33, self.language);
        let ghost p18 = p17 + opt_i32(33, v.language);
        proof {
            lemma_fields_bytes_concat(p17, opt_i32(33, v.language));
        }
        put_rep_bytes(&mut out, 34, &enc_required_kv_tags);
        let ghost p19 = p18 + rep_bytes(34, crate::steammessages_publishedfile_steamclient::c_published_file_query_files_request::KVTag::spec_encode_all(v.required_kv_tags));
        proof {
            lemma_fields_bytes_concat(p18, rep_bytes(34, crate::steammessages_publishedfile_steamclient::c_published_file_query_files_request::KVTag::spec_encode_all(v.required_kv_tags)));
        }
        put_rep_bytes(&mut out, 42, &enc_taggroups);
        let ghost p20 = p19 + rep_bytes(42, crate::steammessages_publishedfile_steamclient::c_published_file_query_files_request::TagGroup::spec_encode_all(v.taggroups));
        proof {
            lemma_fields_bytes_concat(p19, rep_bytes(42, crate::steammessages_publishedfile_steamclient::c_published_file_query_files_request::TagGroup::spec_encode_all(v.taggroups)));
        }
        put_opt_bytes(&mut out, 44, &enc_date_range_created);
        let ghost p21 = p20 + opt_bytes(44, crate::steammessages_publishedfile_steamclient::c_published_file_query_files_request::DateRange::spec_encode_opt(v.date_range_created));
        proof {
            lemma_fields_bytes_concat(p20, opt_bytes(44, crate::steammessages_publishedfile_steamclient::c_published_file_query_files_request::DateRange::spec_encode_opt(v.date_range_created)));
        }
        put_opt_bytes(&mut out, 45, &enc_date_range_updated);
        let ghost p22 = p21 + opt_bytes(45, crate::steammessages_publishedfile_steamclient::c_published_file_query_files_request::DateRange::spec_encode_opt(v.date_range_updated));
        proof {
            lemma_fields_bytes_concat(p21, opt_bytes(45, crate::steammessages_publishedfile_steamclient::c_published_file_query_files_request::DateRange::spec_encode_opt(v.date_range_updated)));
        }
        put_rep_i32(&mut out, 46, &val_excluded_content_descriptors);
        let ghost p23 = p22 + rep_i32(46, v.excluded_content_descriptors);
        proof {
            lemma_fields_bytes_concat(p22, rep_i32(46, v.excluded_content_descriptors));
        }
        put_opt_bool(&mut out, 47, self.admin_query);
        let ghost p24 = p23 + opt_bool(47, v.admin_query);
        proof {
            lemma_fields_bytes_concat(p23, opt_bool(47, v.admin_query));
        }
        put_opt_i32(&mut out, 48, match self.special_filter { Some(e) => Some(e.0), None => None });
        let ghost p25 = p24 + opt_i32(48, v.special_filter);
        proof {
            lemma_fields_bytes_concat(p24, opt_i32(48, v.special_filter));
        }
        put_rep_u32(&mut out, 49, &self.appids_required_for_use);
        let ghost p26 = p25 + rep_u32(49, v.appids_required_for_use);
        proof {
            lemma_fields_bytes_concat(p25, rep_u32(49, v.appids_required_for_use));
        }
        put_rep_u32(&mut out, 51, &self.excluded_appids_required_for_use);
        let ghost p27 = p26 + rep_u32(51, v.excluded_appids_required_for_use);
        proof {
            lemma_fields_bytes_concat(p26, rep_u32(51, v.excluded_appids_required_for_use));
        }
        put_opt_i32(&mut out, 50, match self.search_text_target { Some(e) => Some(e.0), None => None });
        let ghost p28 = p27 + opt_i32(50, v.search_text_target);
        proof {
            lemma_fields_bytes_concat(p27, opt_i32(50, v.search_text_target));
        }
        put_opt_bool(&mut out, 16, self.totalonly);
        let ghost p29 = p28 + opt_bool(16, v.totalonly);
        proof {
            lemma_fields_bytes_concat(p28, opt_bool(16, v.totalonly));
        }
        put_opt_bool(&mut out, 35, self.ids_only);
        let ghost p30 = p29 + opt_bool(35, v.ids_only);
        proof {
            lemma_fields_bytes_concat(p29, opt_bool(35, v.ids_only));
        }
        put_opt_bool(&mut out, 17, self.return_vote_data);
        let ghost p31 = p30 + opt_bool(17, v.return_vote_data);
        proof {
            lemma_fields_bytes_concat(p30, opt_bool(17, v.return_vote_data));
        }
        put_opt_bool(&mut out, 18, self.return_tags);
        let ghost p32 = p31 + opt_bool(18, v.return_tags);
        proof {
            lemma_fields_bytes_concat(p31, opt_bool(18, v.return_tags));
        }
        put_opt_bool(&mut out, 19, self.return_kv_tags);
        let ghost p33 = p32 + opt_bool(19, v.return_kv_tags);
        proof {
            lemma_fields_bytes_concat(p32, opt_bool(19, v.return_kv_tags));
        }
        put_opt_bool(&mut out, 20, self.return_previews);
        let ghost p34 = p33 + opt_bool(20, v.return_previews);
        proof {
            lemma_fields_bytes_concat(p33, opt_bool(20, v.return_previews));
        }
        put_opt_bool(&mut out, 21, self.return_children);
        let ghost p35 = p34 + opt_bool(21, v.return_children);
        proof {
            lemma_fields_bytes_concat(p34, opt_bool(21, v.return_children));
        }
        put_opt_bool(&mut out, 22, self.return_short_description);
        let ghost p36 = p35 + opt_bool(22, v.return_short_description);
        proof {
            lemma_fields_bytes_concat(p35, opt_bool(22, v.return_short_description));
        }
        put_opt_bool(&mut out, 30, self.return_for_sale_data);
        let ghost p37 = p36 + opt_bool(30, v.return_for_sale_data);
        proof {
            lemma_fields_bytes_concat(p36, opt_bool(30, v.return_for_sale_data));
        }
        put_opt_bool(&mut out, 32, self.return_metadata);
        let ghost p38 = p37 + opt_bool(32, v.return_metadata);
        proof {
            lemma_fields_bytes_concat(p37, opt_bool(32, v.return_metadata));
        }
        put_opt_u32(&mut out, 36, self.return_playtime_stats);
        let ghost p39 = p38 + opt_u32(36, v.return_playtime_stats);
        proof {
            lemma_fields_bytes_concat(p38, opt_u32(36, v.return_playtime_stats));
        }
        put_opt_bool(&mut out, 37, self.return_details);
        let ghost p40 = p39 + opt_bool(37, v.return_details);
        proof {
            lemma_fields_bytes_concat(p39, opt_bool(37, v.return_details));
        }
        put_opt_bool(&mut out, 38, self.strip_description_bbcode);
        let ghost p41 = p40 + opt_bool(38, v.strip_description_bbcode);
        proof {
            lemma_fields_bytes_concat(p40, opt_bool(38, v.strip_description_bbcode));
        }
        put_opt_i32(&mut out, 40, match self.desired_revision { Some(e) => Some(e.0), None => None });
        let ghost p42 = p41 + opt_i32(40, v.desired_revision);
        proof {
            lemma_fields_bytes_concat(p41, opt_i32(40, v.desired_revision));
        }
        put_opt_bool(&mut out, 43, self.return_reactions);
        let ghost p43 = p42 + opt_bool(43, v.return_reactions);
        proof {
            lemma_fields_bytes_concat(p42, opt_bool(43, v.return_reactions));
        }
        proof {
            reveal(CPublishedFile_QueryFiles_Request::spec_encode);
        }
        assert(p43 == Self::spec_fields(v));
        out
    }

    /// Appends the encoding of this message to `out`.
    pub fn encode_raw(&self, out: &mut Vec<u8>)
        ensures
            final(out)@ == old(out)@ + Self::spec_encode(self@),
    {
        let mut b = self.encode_to_vec();
        out.append(&mut b);
    }

    /// The first `k` fields of `v`, the others as a fresh message has them.
    #[verifier::opaque]
    pub open spec fn spec_prefix(v: SpecCPublishedFile_QueryFiles_Request, k: int) -> SpecCPublishedFile_QueryFiles_Request {
        SpecCPublishedFile_QueryFiles_Request {
            query_type: if 1 <= k { v.query_type } else { None },
            page: if 2 <= k { v.page } else { None },
            cursor: if 3 <= k { v.cursor } else { None },
            numperpage: if 4 <= k { v.numperpage } else { None },
            creator_appid: if 5 <= k { v.creator_appid } else { None },
            appid: if 6 <= k { v.appid } else { None },
            requiredtags: if 7 <= k { v.requiredtags } else { Seq::empty() },
            excludedtags: if 8 <= k { v.excludedtags } else { Seq::empty() },
            match_all_tags: if 9 <= k { v.match_all_tags } else { None },
            required_flags: if 10 <= k { v.required_flags } else { Seq::empty() },
            omitted_flags: if 11 <= k { v.omitted_flags } else { Seq::empty() },
            search_text: if 12 <= k { v.search_text } else { None },
            filetype: if 13 <= k { v.filetype } else { None },
            child_publishedfileid: if 14 <= k { v.child_publishedfileid } else { None },
            days: if 15 <= k { v.days } else { None },
            include_recent_votes_only: if 16 <= k { v.include_recent_votes_only } else { None },
            cache_max_age_seconds: if 17 <= k { v.cache_max_age_seconds } else { None },
            language: if 18 <= k { v.language } else { None },
            required_kv_tags: if 19 <= k { v.required_kv_tags } else { Seq::empty() },
            taggroups: if 20 <= k { v.taggroups } else { Seq::empty() },
            date_range_created: if 21 <= k { v.date_range_created } else { None },
            date_range_updated: if 22 <= k { v.date_range_updated } else { None },
            excluded_content_descriptors: if 23 <= k { v.excluded_content_descriptors } else { Seq::empty() },
            admin_query: if 24 <= k { v.admin_query } else { None },
            special_filter: if 25 <= k { v.special_filter } else { None },
            appids_required_for_use: if 26 <= k { v.appids_required_for_use } else { Seq::empty() },
            excluded_appids_required_for_use: if 27 <= k { v.excluded_appids_required_for_use } else { Seq::empty() },
            search_text_target: if 28 <= k { v.search_text_target } else { None },
            totalonly: if 29 <= k { v.totalonly } else { None },
            ids_only: if 30 <= k { v.ids_only } else { None },
            return_vote_data: if 31 <= k { v.return_vote_data } else { None },
            return_tags: if 32 <= k { v.return_tags } else { None },
            return_kv_tags: if 33 <= k { v.return_kv_tags } else { None },
            return_previews: if 34 <= k { v.return_previews } else { None },
            return_children: if 35 <= k { v.return_children } else { None },
            return_short_description: if 36 <= k { v.return_short_description } else { None },
            return_for_sale_data: if 37 <= k { v.return_for_sale_data } else { None },
            return_metadata: if 38 <= k { v.return_metadata } else { None },
            return_playtime_stats: if 39 <= k { v.return_playtime_stats } else { None },
            return_details: if 40 <= k { v.return_details } else { None },
            strip_description_bbcode: if 41 <= k { v.strip_description_bbcode } else { None },
            desired_revision: if 42 <= k { v.desired_revision } else { None },
            return_reactions: if 43 <= k { v.return_reactions } else { None },
        }
    }

    /// Reading field 1 back, after the fields before it.
    proof fn lemma_field_query_type(v: SpecCPublishedFile_QueryFiles_Request)
        ensures
            fold_fields(Self::spec_prefix(v, 0), opt_u32(1, v.query_type), Self::apply_fn())
                == Ok::<SpecCPublishedFile_QueryFiles_Request, WireError>(Self::spec_prefix(v, 1)),
    {
        reveal(CPublishedFile_QueryFiles_Request::spec_prefix);
        reveal(opt_u32);
        let apply = Self::apply_fn();
        let s = Self::spec_prefix(v, 0);
        lemma_fold_opt(s, 1, match v.query_type { Some(x) => Some(enc_u32(x)), None => None }, apply);
        if let Some(x) = v.query_type {
            lemma_u32_roundtrip(x);
        }
        assert(SpecCPublishedFile_QueryFiles_Request { query_type: v.query_type, ..s } == Self::spec_prefix(v, 1));
    }

    /// Reading field 2 back, after the fields before it.
    proof fn lemma_field_page(v: SpecCPublishedFile_QueryFiles_Request)
        ensures
            fold_fields(Self::spec_prefix(v, 1), opt_u32(2, v.page), Self::apply_fn())
                == Ok::<SpecCPublishedFile_QueryFiles_Request, WireError>(Self::spec_prefix(v, 2)),
    {
        reveal(CPublishedFile_QueryFiles_Request::spec_prefix);
        reveal(opt_u32);
        let apply = Self::apply_fn();
        let s = Self::spec_prefix(v, 1);
        lemma_fold_opt(s, 2, match v.page { Some(x) => Some(enc_u32(x)), None => None }, apply);
        if let Some(x) = v.page {
            lemma_u32_roundtrip(x);
        }
        assert(SpecCPublishedFile_QueryFiles_Request { page: v.page, ..s } == Self::spec_prefix(v, 2));
    }

    /// Reading field 39 back, after the fields before it.
    proof fn lemma_field_cursor(v: SpecCPublishedFile_QueryFiles_Request)
        ensures
            fold_fields(Self::spec_prefix(v, 2), opt_string(39, v.cursor), Self::apply_fn())
                == Ok::<SpecCPublishedFile_QueryFiles_Request, WireError>(Self::spec_prefix(v, 3)),
    {
        reveal(CPublishedFile_QueryFiles_Request::spec_prefix);
        reveal(opt_string);
        let apply = Self::apply_fn();
        let s = Self::spec_prefix(v, 2);
        lemma_fold_opt(s, 39, match v.cursor { Some(x) => Some(enc_string(x)), None => None }, apply);
        if let Some(x) = v.cursor {
            lemma_string_roundtrip(x);
        }
        assert(SpecCPublishedFile_QueryFiles_Request { cursor: v.cursor, ..s } == Self::spec_prefix(v, 3));
    }

    /// Reading field 3 back, after the fields before it.
    proof fn lemma_field_numperpage(v: SpecCPublishedFile_QueryFiles_Request)
        ensures
            fold_fields(Self::spec_prefix(v, 3), opt_u32(3, v.numperpage), Self::apply_fn())
                == Ok::<SpecCPublishedFile_QueryFiles_Request, WireError>(Self::spec_prefix(v, 4)),
    {
        reveal(CPublishedFile_QueryFiles_Request::spec_prefix);
        reveal(opt_u32);
        let apply = Self::apply_fn();
        let s = Self::spec_prefix(v, 3);
        lemma_fold_opt(s, 3, match v.numperpage { Some(x) => Some(enc_u32(x)), None => None }, apply);
        if let Some(x) = v.numperpage {
            lemma_u32_roundtrip(x);
        }
        assert(SpecCPublishedFile_QueryFiles_Request { numperpage: v.numperpage, ..s } == Self::spec_prefix(v, 4));
    }

    /// Reading field 4 back, after the fields before it.
    proof fn lemma_field_creator_appid(v: SpecCPublishedFile_QueryFiles_Request)
        ensures
            fold_fields(Self::spec_prefix(v, 4), opt_u32(4, v.creator_appid), Self::apply_fn())
                == Ok::<SpecCPublishedFile_QueryFiles_Request, WireError>(Self::spec_prefix(v, 5)),
    {
        reveal(CPublishedFile_QueryFiles_Request::spec_prefix);
        reveal(opt_u32);
        let apply = Self::apply_fn();
        let s = Self::spec_prefix(v, 4);
        lemma_fold_opt(s, 4, match v.creator_appid { Some(x) => Some(enc_u32(x)), None => None }, apply);
        if let Some(x) = v.creator_appid {
            lemma_u32_roundtrip(x);
        }
        assert(SpecCPublishedFile_QueryFiles_Request { creator_appid: v.creator_appid, ..s } == Self::spec_prefix(v, 5));
    }

    /// Reading field 5 back, after the fields before it.
    proof fn lemma_field_appid(v: SpecCPublishedFile_QueryFiles_Request)
        ensures
            fold_fields(Self::spec_prefix(v, 5), opt_u32(5, v.appid), Self::apply_fn())
                == Ok::<SpecCPublishedFile_QueryFiles_Request, WireError>(Self::spec_prefix(v, 6)),
    {
        reveal(CPublishedFile_QueryFiles_Request::spec_prefix);
        reveal(opt_u32);
        let apply = Self::apply_fn();
        let s = Self::spec_prefix(v, 5);
        lemma_fold_opt(s, 5, match v.appid { Some(x) => Some(enc_u32(x)), None => None }, apply);
        if let Some(x) = v.appid {
            lemma_u32_roundtrip(x);
        }
        assert(SpecCPublishedFile_QueryFiles_Request { appid: v.appid, ..s } == Self::spec_prefix(v, 6));
    }

    /// Reading field 6 back, after the fields before it.
    proof fn lemma_field_requiredtags(v: SpecCPublishedFile_QueryFiles_Request)
        ensures
            fold_fields(Self::spec_prefix(v, 6), rep_string(6, v.requiredtags), Self::apply_fn())
                == Ok::<SpecCPublishedFile_QueryFiles_Request, WireError>(Self::spec_prefix(v, 7)),
    {
        reveal(CPublishedFile_QueryFiles_Request::spec_prefix);
        reveal(rep_string);
        let apply = Self::apply_fn();
        let s = Self::spec_prefix(v, 6);
        let l = rep_string(6, v.requiredtags);
        let xs = v.requiredtags;
        let st = Seq::new((xs.len() + 1) as nat, |j: int| SpecCPublishedFile_QueryFiles_Request { requiredtags: xs.take(j), ..s });
        assert forall|j: int| 0 <= j < l.len() implies #[trigger] apply(st[j], l[j]) == Ok::<SpecCPublishedFile_QueryFiles_Request, WireError>(st[j + 1]) by {
            lemma_string_roundtrip(xs[j]);
            assert(xs.take(j).push(xs[j]) =~= xs.take(j + 1));
        }
        lemma_fold_chain(l, st, apply);
        assert(xs.take(0) =~= Seq::<Seq<char>>::empty());
        assert(xs.take(xs.len() as int) =~= xs);
        assert(st[0] == s);
        assert(st[xs.len() as int] == Self::spec_prefix(v, 7));
    }

    /// Reading field 7 back, after the fields before it.
    proof fn lemma_field_excludedtags(v: SpecCPublishedFile_QueryFiles_Request)
        ensures
            fold_fields(Self::spec_prefix(v, 7), rep_string(7, v.excludedtags), Self::apply_fn())
                == Ok::<SpecCPublishedFile_QueryFiles_Request, WireError>(Self::spec_prefix(v, 8)),
    {
        reveal(CPublishedFile_QueryFiles_Request::spec_prefix);
        reveal(rep_string);
        let apply = Self::apply_fn();
        let s = Self::spec_prefix(v, 7);
        let l = rep_string(7, v.excludedtags);
        let xs = v.excludedtags;
        let st = Seq::new((xs.len() + 1) as nat, |j: int| SpecCPublishedFile_QueryFiles_Request { excludedtags: xs.take(j), ..s });
        assert forall|j: int| 0 <= j < l.len() implies #[trigger] apply(st[j], l[j]) == Ok::<SpecCPublishedFile_QueryFiles_Request, WireError>(st[j + 1]) by {
            lemma_string_roundtrip(xs[j]);
            assert(xs.take(j).push(xs[j]) =~= xs.take(j + 1));
        }
        lemma_fold_chain(l, st, apply);
        assert(xs.take(0) =~= Seq::<Seq<char>>::empty());
        assert(xs.take(xs.len() as int) =~= xs);
        assert(st[0] == s);
        assert(st[xs.len() as int] == Self::spec_prefix(v, 8));
    }

    /// Reading field 8 back, after the fields before it.
    proof fn lemma_field_match_all_tags(v: SpecCPublishedFile_QueryFiles_Request)
        ensures
            fold_fields(Self::spec_prefix(v, 8), opt_bool(8, v.match_all_tags), Self::apply_fn())
                == Ok::<SpecCPublishedFile_QueryFiles_Request, WireError>(Self::spec_prefix(v, 9)),
    {
        reveal(CPublishedFile_QueryFiles_Request::spec_prefix);
        reveal(opt_bool);
        let apply = Self::apply_fn();
        let s = Self::spec_prefix(v, 8);
        lemma_fold_opt(s, 8, match v.match_all_tags { Some(x) => Some(enc_bool(x)), None => None }, apply);
        assert(SpecCPublishedFile_QueryFiles_Request { match_all_tags: v.match_all_tags, ..s } == Self::spec_prefix(v, 9));
    }

    /// Reading field 9 back, after the fields before it.
    proof fn lemma_field_required_flags(v: SpecCPublishedFile_QueryFiles_Request)
        ensures
            fold_fields(Self::spec_prefix(v, 9), rep_string(9, v.required_flags), Self::apply_fn())
                == Ok::<SpecCPublishedFile_QueryFiles_Request, WireError>(Self::spec_prefix(v, 10)),
    {
        reveal(CPublishedFile_QueryFiles_Request::spec_prefix);
        reveal(rep_string);
        let apply = Self::apply_fn();
        let s = Self::spec_prefix(v, 9);
        let l = rep_string(9, v.required_flags);
        let xs = v.required_flags;
        let st = Seq::new((xs.len() + 1) as nat, |j: int| SpecCPublishedFile_QueryFiles_Request { required_flags: xs.take(j), ..s });
        assert forall|j: int| 0 <= j < l.len() implies #[trigger] apply(st[j], l[j]) == Ok::<SpecCPublishedFile_QueryFiles_Request, WireError>(st[j + 1]) by {
            lemma_string_roundtrip(xs[j]);
            assert(xs.take(j).push(xs[j]) =~= xs.take(j + 1));
        }
        lemma_fold_chain(l, st, apply);
        assert(xs.take(0) =~= Seq::<Seq<char>>::empty());
        assert(xs.take(xs.len() as int) =~= xs);
        assert(st[0] == s);
        assert(st[xs.len() as int] == Self::spec_prefix(v, 10));
    }

    /// Reading field 10 back, after the fields before it.
    proof fn lemma_field_omitted_flags(v: SpecCPublishedFile_QueryFiles_Request)
        ensures
            fold_fields(Self::spec_prefix(v, 10), rep_string(10, v.omitted_flags), Self::apply_fn())
                == Ok::<SpecCPublishedFile_QueryFiles_Request, WireError>(Self::spec_prefix(v, 11)),
    {
        reveal(CPublishedFile_QueryFiles_Request::spec_prefix);
        reveal(rep_string);
        let apply = Self::apply_fn();
        let s = Self::spec_prefix(v, 10);
        let l = rep_string(10, v.omitted_flags);
        let xs = v.omitted_flags;
        let st = Seq::new((xs.len() + 1) as nat, |j: int| SpecCPublishedFile_QueryFiles_Request { omitted_flags: xs.take(j), ..s });
        assert forall|j: int| 0 <= j < l.len() implies #[trigger] apply(st[j], l[j]) == Ok::<SpecCPublishedFile_QueryFiles_Request, WireError>(st[j + 1]) by {
            lemma_string_roundtrip(xs[j]);
            assert(xs.take(j).push(xs[j]) =~= xs.take(j + 1));
        }
        lemma_fold_chain(l, st, apply);
        assert(xs.take(0) =~= Seq::<Seq<char>>::empty());
        assert(xs.take(xs.len() as int) =~= xs);
        assert(st[0] == s);
        assert(st[xs.len() as int] == Self::spec_prefix(v, 11));
    }

    /// Reading field 11 back, after the fields before it.
    proof fn lemma_field_search_text(v: SpecCPublishedFile_QueryFiles_Request)
        ensures
            fold_fields(Self::spec_prefix(v, 11), opt_string(11, v.search_text), Self::apply_fn())
                == Ok::<SpecCPublishedFile_QueryFiles_Request, WireError>(Self::spec_prefix(v, 12)),
    {
        reveal(CPublishedFile_QueryFiles_Request::spec_prefix);
        reveal(opt_string);
        let apply = Self::apply_fn();
        let s = Self::spec_prefix(v, 11);
        lemma_fold_opt(s, 11, match v.search_text { Some(x) => Some(enc_string(x)), None => None }, apply);
        if let Some(x) = v.search_text {
            lemma_string_roundtrip(x);
        }
        assert(SpecCPublishedFile_QueryFiles_Request { search_text: v.search_text, ..s } == Self::spec_prefix(v, 12));
    }

    /// Reading field 12 back, after the fields before it.
    proof fn lemma_field_filetype(v: SpecCPublishedFile_QueryFiles_Request)
        ensures
            fold_fields(Self::spec_prefix(v, 12), opt_u32(12, v.filetype), Self::apply_fn())
                == Ok::<SpecCPublishedFile_QueryFiles_Request, WireError>(Self::spec_prefix(v, 13)),
    {
        reveal(CPublishedFile_QueryFiles_Request::spec_prefix);
        reveal(opt_u32);
        let apply = Self::apply_fn();
        let s = Self::spec_prefix(v, 12);
        lemma_fold_opt(s, 12, match v.filetype { Some(x) => Some(enc_u32(x)), None => None }, apply);
        if let Some(x) = v.filetype {
            lemma_u32_roundtrip(x);
        }
        assert(SpecCPublishedFile_QueryFiles_Request { filetype: v.filetype, ..s } == Self::spec_prefix(v, 13));
    }

    /// Reading field 13 back, after the fields before it.
    proof fn lemma_field_child_publishedfileid(v: SpecCPublishedFile_QueryFiles_Request)
        ensures
            fold_fields(Self::spec_prefix(v, 13), opt_fixed64(13, v.child_publishedfileid), Self::apply_fn())
                == Ok::<SpecCPublishedFile_QueryFiles_Request, WireError>(Self::spec_prefix(v, 14)),
    {
        reveal(CPublishedFile_QueryFiles_Request::spec_prefix);
        reveal(opt_fixed64);
        let apply = Self::apply_fn();
        let s = Self::spec_prefix(v, 13);
        lemma_fold_opt(s, 13, match v.child_publishedfileid { Some(x) => Some(enc_fixed64(x)), None => None }, apply);
        if let Some(x) = v.child_publishedfileid {
            lemma_u64_roundtrip(x);
        }
        assert(SpecCPublishedFile_QueryFiles_Request { child_publishedfileid: v.child_publishedfileid, ..s } == Self::spec_prefix(v, 14));
    }

    /// Reading field 14 back, after the fields before it.
    proof fn lemma_field_days(v: SpecCPublishedFile_QueryFiles_Request)
        ensures
            fold_fields(Self::spec_prefix(v, 14), opt_u32(14, v.days), Self::apply_fn())
                == Ok::<SpecCPublishedFile_QueryFiles_Request, WireError>(Self::spec_prefix(v, 15)),
    {
        reveal(CPublishedFile_QueryFiles_Request::spec_prefix);
        reveal(opt_u32);
        let apply = Self::apply_fn();
        let s = Self::spec_prefix(v, 14);
        lemma_fold_opt(s, 14, match v.days { Some(x) => Some(enc_u32(x)), None => None }, apply);
        if let Some(x) = v.days {
            lemma_u32_roundtrip(x);
        }
        assert(SpecCPublishedFile_QueryFiles_Request { days: v.days, ..s } == Self::spec_prefix(v, 15));
    }

    /// Reading field 15 back, after the fields before it.
    proof fn lemma_field_include_recent_votes_only(v: SpecCPublishedFile_QueryFiles_Request)
        ensures
            fold_fields(Self::spec_prefix(v, 15), opt_bool(15, v.include_recent_votes_only), Self::apply_fn())
                == Ok::<SpecCPublishedFile_QueryFiles_Request, WireError>(Self::spec_prefix(v, 16)),
    {
        reveal(CPublishedFile_QueryFiles_Request::spec_prefix);
        reveal(opt_bool);
        let apply = Self::apply_fn();
        let s = Self::spec_prefix(v, 15);
        lemma_fold_opt(s, 15, match v.include_recent_votes_only { Some(x) => Some(enc_bool(x)), None => None }, apply);
        assert(SpecCPublishedFile_QueryFiles_Request { include_recent_votes_only: v.include_recent_votes_only, ..s } == Self::spec_prefix(v, 16));
    }

    /// Reading field 31 back, after the fields before it.
    proof fn lemma_field_cache_max_age_seconds(v: SpecCPublishedFile_QueryFiles_Request)
        ensures
            fold_fields(Self::spec_prefix(v, 16), opt_u32(31, v.cache_max_age_seconds), Self::apply_fn())
                == Ok::<SpecCPublishedFile_QueryFiles_Request, WireError>(Self::spec_prefix(v, 17)),
    {
        reveal(CPublishedFile_QueryFiles_Request::spec_prefix);
        reveal(opt_u32);
        let apply = Self::apply_fn();
        let s = Self::spec_prefix(v, 16);
        lemma_fold_opt(s, 31, match v.cache_max_age_seconds { Some(x) => Some(enc_u32(x)), None => None }, apply);
        if let Some(x) = v.cache_max_age_seconds {
            lemma_u32_roundtrip(x);
        }
        assert(SpecCPublishedFile_QueryFiles_Request { cache_max_age_seconds: v.cache_max_age_seconds, ..s } == Self::spec_prefix(v, 17));
    }

    /// Reading field 33 back, after the fields before it.
    proof fn lemma_field_language(v: SpecCPublishedFile_QueryFiles_Request)
        ensures
            fold_fields(Self::spec_prefix(v, 17), opt_i32(33, v.language), Self::apply_fn())
                == Ok::<SpecCPublishedFile_QueryFiles_Request, WireError>(Self::spec_prefix(v, 18)),
    {
        reveal(CPublishedFile_QueryFiles_Request::spec_prefix);
        reveal(opt_i32);
        let apply = Self::apply_fn();
        let s = Self::spec_prefix(v, 17);
        lemma_fold_opt(s, 33, match v.language { Some(x) => Some(enc_i32(x)), None => None }, apply);
        if let Some(x) = v.language {
            lemma_i32_roundtrip(x);
        }
        assert(SpecCPublishedFile_QueryFiles_Request { language: v.language, ..s } == Self::spec_prefix(v, 18));
    }

    /// Reading field 34 back, after the fields before it.
    proof fn lemma_field_required_kv_tags(v: SpecCPublishedFile_QueryFiles_Request)
        requires
            fields_wf(rep_bytes(34, crate::steammessages_publishedfile_steamclient::c_published_file_query_files_request::KVTag::spec_encode_all(v.required_kv_tags))),
        ensures
            fold_fields(Self::spec_prefix(v, 18), rep_bytes(34, crate::steammessages_publishedfile_steamclient::c_published_file_query_files_request::KVTag::spec_encode_all(v.required_kv_tags)), Self::apply_fn())
                == Ok::<SpecCPublishedFile_QueryFiles_Request, WireError>(Self::spec_prefix(v, 19)),
    {
        reveal(CPublishedFile_QueryFiles_Request::spec_prefix);
        reveal(rep_bytes);
        reveal(fields_wf);
        let apply = Self::apply_fn();
        let s = Self::spec_prefix(v, 18);
        let l = rep_bytes(34, crate::steammessages_publishedfile_steamclient::c_published_file_query_files_request::KVTag::spec_encode_all(v.required_kv_tags));
        let xs = v.required_kv_tags;
        let st = Seq::new((xs.len() + 1) as nat, |j: int| SpecCPublishedFile_QueryFiles_Request { required_kv_tags: xs.take(j), ..s });
        assert forall|j: int| 0 <= j < l.len() implies #[trigger] apply(st[j], l[j]) == Ok::<SpecCPublishedFile_QueryFiles_Request, WireError>(st[j + 1]) by {
            assert(field_wf(l[j]));
            crate::steammessages_publishedfile_steamclient::c_published_file_query_files_request::KVTag::lemma_decode_encode(xs[j]);
            assert(xs.take(j).push(xs[j]) =~= xs.take(j + 1));
        }
        lemma_fold_chain(l, st, apply);
        assert(xs.take(0) =~= Seq::<crate::steammessages_publishedfile_steamclient::c_published_file_query_files_request::SpecKVTag>::empty());
        assert(xs.take(xs.len() as int) =~= xs);
        assert(st[0] == s);
        assert(st[xs.len() as int] == Self::spec_prefix(v, 19));
    }

    /// Reading field 42 back, after the fields before it.
    proof fn lemma_field_taggroups(v: SpecCPublishedFile_QueryFiles_Request)
        requires
            fields_wf(rep_bytes(42, crate::steammessages_publishedfile_steamclient::c_published_file_query_files_request::TagGroup::spec_encode_all(v.taggroups))),
        ensures
            fold_fields(Self::spec_prefix(v, 19), rep_bytes(42, crate::steammessages_publishedfile_steamclient::c_published_file_query_files_request::TagGroup::spec_encode_all(v.taggroups)), Self::apply_fn())
                == Ok::<SpecCPublishedFile_QueryFiles_Request, WireError>(Self::spec_prefix(v, 20)),
    {
        reveal(CPublishedFile_QueryFiles_Request::spec_prefix);
        reveal(rep_bytes);
        reveal(fields_wf);
        let apply = Self::apply_fn();
        let s = Self::spec_prefix(v, 19);
        let l = rep_bytes(42, crate::steammessages_publishedfile_steamclient::c_published_file_query_files_request::TagGroup::spec_encode_all(v.taggroups));
        let xs = v.taggroups;
        let st = Seq::new((xs.len() + 1) as nat, |j: int| SpecCPublishedFile_QueryFiles_Request { taggroups: xs.take(j), ..s });
        assert forall|j: int| 0 <= j < l.len() implies #[trigger] apply(st[j], l[j]) == Ok::<SpecCPublishedFile_QueryFiles_Request, WireError>(st[j + 1]) by {
            assert(field_wf(l[j]));
            crate::steammessages_publishedfile_steamclient::c_published_file_query_files_request::TagGroup::lemma_decode_encode(xs[j]);
            assert(xs.take(j).push(xs[j]) =~= xs.take(j + 1));
        }
        lemma_fold_chain(l, st, apply);
        assert(xs.take(0) =~= Seq::<crate::steammessages_publishedfile_steamclient::c_published_file_query_files_request::SpecTagGroup>::empty());
        assert(xs.take(xs.len() as int) =~= xs);
        assert(st[0] == s);
        assert(st[xs.len() as int] == Self::spec_prefix(v, 20));
    }

    /// Reading field 44 back, after the fields before it.
    proof fn lemma_field_date_range_created(v: SpecCPublishedFile_QueryFiles_Request)
        requires
            fields_wf(opt_bytes(44, crate::steammessages_publishedfile_steamclient::c_published_file_query_files_request::DateRange::spec_encode_opt(v.date_range_created))),
        ensures
            fold_fields(Self::spec_prefix(v, 20), opt_bytes(44, crate::steammessages_publishedfile_steamclient::c_published_file_query_files_request::DateRange::spec_encode_opt(v.date_range_created)), Self::apply_fn())
                == Ok::<SpecCPublishedFile_QueryFiles_Request, WireError>(Self::spec_prefix(v, 21)),
    {
        reveal(CPublishedFile_QueryFiles_Request::spec_prefix);
        reveal(opt_bytes);
        reveal(fields_wf);
        let apply = Self::apply_fn();
        let s = Self::spec_prefix(v, 20);
        lemma_fold_opt(s, 44, match crate::steammessages_publishedfile_steamclient::c_published_file_query_files_request::DateRange::spec_encode_opt(v.date_range_created) { Some(x) => Some(enc_bytes(x)), None => None }, apply);
        if let Some(m) = v.date_range_created {
            assert(field_wf(opt_bytes(44, crate::steammessages_publishedfile_steamclient::c_published_file_query_files_request::DateRange::spec_encode_opt(v.date_range_created))[0]));
            crate::steammessages_publishedfile_steamclient::c_published_file_query_files_request::DateRange::lemma_decode_encode(m);
        }
        assert(SpecCPublishedFile_QueryFiles_Request { date_range_created: v.date_range_created, ..s } == Self::spec_prefix(v, 21));
    }

    /// Reading field 45 back, after the fields before it.
    proof fn lemma_field_date_range_updated(v: SpecCPublishedFile_QueryFiles_Request)
        requires
            fields_wf(opt_bytes(45, crate::steammessages_publishedfile_steamclient::c_published_file_query_files_request::DateRange::spec_encode_opt(v.date_range_updated))),
        ensures
            fold_fields(Self::spec_prefix(v, 21), opt_bytes(45, crate::steammessages_publishedfile_steamclient::c_published_file_query_files_request::DateRange::spec_encode_opt(v.date_range_updated)), Self::apply_fn())
                == Ok::<SpecCPublishedFile_QueryFiles_Request, WireError>(Self::spec_prefix(v, 22)),
    {
        reveal(CPublishedFile_QueryFiles_Request::spec_prefix);
        reveal(opt_bytes);
        reveal(fields_wf);
        let apply = Self::apply_fn();
        let s = Self::spec_prefix(v, 21);
        lemma_fold_opt(s, 45, match crate::steammessages_publishedfile_steamclient::c_published_file_query_files_request::DateRange::spec_encode_opt(v.date_range_updated) { Some(x) => Some(enc_bytes(x)), None => None }, apply);
        if let Some(m) = v.date_range_updated {
            assert(field_wf(opt_bytes(45, crate::steammessages_publishedfile_steamclient::c_published_file_query_files_request::DateRange::spec_encode_opt(v.date_range_updated))[0]));
            crate::steammessages_publishedfile_steamclient::c_published_file_query_files_request::DateRange::lemma_decode_encode(m);
        }
        assert(SpecCPublishedFile_QueryFiles_Request { date_range_updated: v.date_range_updated, ..s } == Self::spec_prefix(v, 22));
    }

    /// Reading field 46 back, after the fields before it.
    proof fn lemma_field_excluded_content_descriptors(v: SpecCPublishedFile_QueryFiles_Request)
        ensures
            fold_fields(Self::spec_prefix(v, 22), rep_i32(46, v.excluded_content_descriptors), Self::apply_fn())
                == Ok::<SpecCPublishedFile_QueryFiles_Request, WireError>(Self::spec_prefix(v, 23)),
    {
        reveal(CPublishedFile_QueryFiles_Request::spec_prefix);
        reveal(rep_i32);
        let apply = Self::apply_fn();
        let s = Self::spec_prefix(v, 22);
        let l = rep_i32(46, v.excluded_content_descriptors);
        let xs = v.excluded_content_descriptors;
        let st = Seq::new((xs.len() + 1) as nat, |j: int| SpecCPublishedFile_QueryFiles_Request { excluded_content_descriptors: xs.take(j), ..s });
        assert forall|j: int| 0 <= j < l.len() implies #[trigger] apply(st[j], l[j]) == Ok::<SpecCPublishedFile_QueryFiles_Request, WireError>(st[j + 1]) by {
            lemma_i32_roundtrip(xs[j]);
            assert(xs.take(j) + seq![xs[j]] =~= xs.take(j + 1));
        }
        lemma_fold_chain(l, st, apply);
        assert(xs.take(0) =~= Seq::<i32>::empty());
        assert(xs.take(xs.len() as int) =~= xs);
        assert(st[0] == s);
        assert(st[xs.len() as int] == Self::spec_prefix(v, 23));
    }

    /// Reading field 47 back, after the fields before it.
    proof fn lemma_field_admin_query(v: SpecCPublishedFile_QueryFiles_Request)
        ensures
            fold_fields(Self::spec_prefix(v, 23), opt_bool(47, v.admin_query), Self::apply_fn())
                == Ok::<SpecCPublishedFile_QueryFiles_Request, WireError>(Self::spec_prefix(v, 24)),
    {
        reveal(CPublishedFile_QueryFiles_Request::spec_prefix);
        reveal(opt_bool);
        let apply = Self::apply_fn();
        let s = Self::spec_prefix(v, 23);
        lemma_fold_opt(s, 47, match v.admin_query { Some(x) => Some(enc_bool(x)), None => None }, apply);
        assert(SpecCPublishedFile_QueryFiles_Request { admin_query: v.admin_query, ..s } == Self::spec_prefix(v, 24));
    }

    /// Reading field 48 back, after the fields before it.
    proof fn lemma_field_special_filter(v: SpecCPublishedFile_QueryFiles_Request)
        ensures
            fold_fields(Self::spec_prefix(v, 24), opt_i32(48, v.special_filter), Self::apply_fn())
                == Ok::<SpecCPublishedFile_QueryFiles_Request, WireError>(Self::spec_prefix(v, 25)),
    {
        reveal(CPublishedFile_QueryFiles_Request::spec_prefix);
        reveal(opt_i32);
        let apply = Self::apply_fn();
        let s = Self::spec_prefix(v, 24);
        lemma_fold_opt(s, 48, match v.special_filter { Some(x) => Some(enc_i32(x)), None => None }, apply);
        if let Some(x) = v.special_filter {
            lemma_i32_roundtrip(x);
        }
        assert(SpecCPublishedFile_QueryFiles_Request { special_filter: v.special_filter, ..s } == Self::spec_prefix(v, 25));
    }

    /// Reading field 49 back, after the fields before it.
    proof fn lemma_field_appids_required_for_use(v: SpecCPublishedFile_QueryFiles_Request)
        ensures
            fold_fields(Self::spec_prefix(v, 25), rep_u32(49, v.appids_required_for_use), Self::apply_fn())
                == Ok::<SpecCPublishedFile_QueryFiles_Request, WireError>(Self::spec_prefix(v, 26)),
    {
        reveal(CPublishedFile_QueryFiles_Request::spec_prefix);
        reveal(rep_u32);
        let apply = Self::apply_fn();
        let s = Self::spec_prefix(v, 25);
        let l = rep_u32(49, v.appids_required_for_use);
        let xs = v.appids_required_for_use;
        let st = Seq::new((xs.len() + 1) as nat, |j: int| SpecCPublishedFile_QueryFiles_Request { appids_required_for_use: xs.take(j), ..s });
        assert forall|j: int| 0 <= j < l.len() implies #[trigger] apply(st[j], l[j]) == Ok::<SpecCPublishedFile_QueryFiles_Request, WireError>(st[j + 1]) by {
            lemma_u32_roundtrip(xs[j]);
            assert(xs.take(j) + seq![xs[j]] =~= xs.take(j + 1));
        }
        lemma_fold_chain(l, st, apply);
        assert(xs.take(0) =~= Seq::<u32>::empty());
        assert(xs.take(xs.len() as int) =~= xs);
        assert(st[0] == s);
        assert(st[xs.len() as int] == Self::spec_prefix(v, 26));
    }

    /// Reading field 51 back, after the fields before it.
    proof fn lemma_field_excluded_appids_required_for_use(v: SpecCPublishedFile_QueryFiles_Request)
        ensures
            fold_fields(Self::spec_prefix(v, 26), rep_u32(51, v.excluded_appids_required_for_use), Self::apply_fn())
                == Ok::<SpecCPublishedFile_QueryFiles_Request, WireError>(Self::spec_prefix(v, 27)),
    {
        reveal(CPublishedFile_QueryFiles_Request::spec_prefix);
        reveal(rep_u32);
        let apply = Self::apply_fn();
        let s = Self::spec_prefix(v, 26);
        let l = rep_u32(51, v.excluded_appids_required_for_use);
        let xs = v.excluded_appids_required_for_use;
        let st = Seq::new((xs.len() + 1) as nat, |j: int| SpecCPublishedFile_QueryFiles_Request { excluded_appids_required_for_use: xs.take(j), ..s });
        assert forall|j: int| 0 <= j < l.len() implies #[trigger] apply(st[j], l[j]) == Ok::<SpecCPublishedFile_QueryFiles_Request, WireError>(st[j + 1]) by {
            lemma_u32_roundtrip(xs[j]);
            assert(xs.take(j) + seq![xs[j]] =~= xs.take(j + 1));
        }
        lemma_fold_chain(l, st, apply);
        assert(xs.take(0) =~= Seq::<u32>::empty());
        assert(xs.take(xs.len() as int) =~= xs);
        assert(st[0] == s);
        assert(st[xs.len() as int] == Self::spec_prefix(v, 27));
    }

    /// Reading field 50 back, after the fields before it.
    proof fn lemma_field_search_text_target(v: SpecCPublishedFile_QueryFiles_Request)
        ensures
            fold_fields(Self::spec_prefix(v, 27), opt_i32(50, v.search_text_target), Self::apply_fn())
                == Ok::<SpecCPublishedFile_QueryFiles_Request, WireError>(Self::spec_prefix(v, 28)),
    {
        reveal(CPublishedFile_QueryFiles_Request::spec_prefix);
        reveal(opt_i32);
        let apply = Self::apply_fn();
        let s = Self::spec_prefix(v, 27);
        lemma_fold_opt(s, 50, match v.search_text_target { Some(x) => Some(enc_i32(x)), None => None }, apply);
        if let Some(x) = v.search_text_target {
            lemma_i32_roundtrip(x);
        }
        assert(SpecCPublishedFile_QueryFiles_Request { search_text_target: v.search_text_target, ..s } == Self::spec_prefix(v, 28));
    }

    /// Reading field 16 back, after the fields before it.
    proof fn lemma_field_totalonly(v: SpecCPublishedFile_QueryFiles_Request)
        ensures
            fold_fields(Self::spec_prefix(v, 28), opt_bool(16, v.totalonly), Self::apply_fn())
                == Ok::<SpecCPublishedFile_QueryFiles_Request, WireError>(Self::spec_prefix(v, 29)),
    {
        reveal(CPublishedFile_QueryFiles_Request::spec_prefix);
        reveal(opt_bool);
        let apply = Self::apply_fn();
        let s = Self::spec_prefix(v, 28);
        lemma_fold_opt(s, 16, match v.totalonly { Some(x) => Some(enc_bool(x)), None => None }, apply);
        assert(SpecCPublishedFile_QueryFiles_Request { totalonly: v.totalonly, ..s } == Self::spec_prefix(v, 29));
    }

    /// Reading field 35 back, after the fields before it.
    proof fn lemma_field_ids_only(v: SpecCPublishedFile_QueryFiles_Request)
        ensures
            fold_fields(Self::spec_prefix(v, 29), opt_bool(35, v.ids_only), Self::apply_fn())
                == Ok::<SpecCPublishedFile_QueryFiles_Request, WireError>(Self::spec_prefix(v, 30)),
    {
        reveal(CPublishedFile_QueryFiles_Request::spec_prefix);
        reveal(opt_bool);
        let apply = Self::apply_fn();
        let s = Self::spec_prefix(v, 29);
        lemma_fold_opt(s, 35, match v.ids_only { Some(x) => Some(enc_bool(x)), None => None }, apply);
        assert(SpecCPublishedFile_QueryFiles_Request { ids_only: v.ids_only, ..s } == Self::spec_prefix(v, 30));
    }

    /// Reading field 17 back, after the fields before it.
    proof fn lemma_field_return_vote_data(v: SpecCPublishedFile_QueryFiles_Request)
        ensures
            fold_fields(Self::spec_prefix(v, 30), opt_bool(17, v.return_vote_data), Self::apply_fn())
                == Ok::<SpecCPublishedFile_QueryFiles_Request, WireError>(Self::spec_prefix(v, 31)),
    {
        reveal(CPublishedFile_QueryFiles_Request::spec_prefix);
        reveal(opt_bool);
        let apply = Self::apply_fn();
        let s = Self::spec_prefix(v, 30);
        lemma_fold_opt(s, 17, match v.return_vote_data { Some(x) => Some(enc_bool(x)), None => None }, apply);
        assert(SpecCPublishedFile_QueryFiles_Request { return_vote_data: v.return_vote_data, ..s } == Self::spec_prefix(v, 31));
    }

    /// Reading field 18 back, after the fields before it.
    proof fn lemma_field_return_tags(v: SpecCPublishedFile_QueryFiles_Request)
        ensures
            fold_fields(Self::spec_prefix(v, 31), opt_bool(18, v.return_tags), Self::apply_fn())
                == Ok::<SpecCPublishedFile_QueryFiles_Request, WireError>(Self::spec_prefix(v, 32)),
    {
        reveal(CPublishedFile_QueryFiles_Request::spec_prefix);
        reveal(opt_bool);
        let apply = Self::apply_fn();
        let s = Self::spec_prefix(v, 31);
        lemma_fold_opt(s, 18, match v.return_tags { Some(x) => Some(enc_bool(x)), None => None }, apply);
        assert(SpecCPublishedFile_QueryFiles_Request { return_tags: v.return_tags, ..s } == Self::spec_prefix(v, 32));
    }

    /// Reading field 19 back, after the fields before it.
    proof fn lemma_field_return_kv_tags(v: SpecCPublishedFile_QueryFiles_Request)
        ensures
            fold_fields(Self::spec_prefix(v, 32), opt_bool(19, v.return_kv_tags), Self::apply_fn())
                == Ok::<SpecCPublishedFile_QueryFiles_Request, WireError>(Self::spec_prefix(v, 33)),
    {
        reveal(CPublishedFile_QueryFiles_Request::spec_prefix);
        reveal(opt_bool);
        let apply = Self::apply_fn();
        let s = Self::spec_prefix(v, 32);
        lemma_fold_opt(s, 19, match v.return_kv_tags { Some(x) => Some(enc_bool(x)), None => None }, apply);
        assert(SpecCPublishedFile_QueryFiles_Request { return_kv_tags: v.return_kv_tags, ..s } == Self::spec_prefix(v, 33));
    }

    /// Reading field 20 back, after the fields before it.
    proof fn lemma_field_return_previews(v: SpecCPublishedFile_QueryFiles_Request)
        ensures
            fold_fields(Self::spec_prefix(v, 33), opt_bool(20, v.return_previews), Self::apply_fn())
                == Ok::<SpecCPublishedFile_QueryFiles_Request, WireError>(Self::spec_prefix(v, 34)),
    {
        reveal(CPublishedFile_QueryFiles_Request::spec_prefix);
        reveal(opt_bool);
        let apply = Self::apply_fn();
        let s = Self::spec_prefix(v, 33);
        lemma_fold_opt(s, 20, match v.return_previews { Some(x) => Some(enc_bool(x)), None => None }, apply);
        assert(SpecCPublishedFile_QueryFiles_Request { return_previews: v.return_previews, ..s } == Self::spec_prefix(v, 34));
    }

    /// Reading field 21 back, after the fields before it.
    proof fn lemma_field_return_children(v: SpecCPublishedFile_QueryFiles_Request)
        ensures
            fold_fields(Self::spec_prefix(v, 34), opt_bool(21, v.return_children), Self::apply_fn())
                == Ok::<SpecCPublishedFile_QueryFiles_Request, WireError>(Self::spec_prefix(v, 35)),
    {
        reveal(CPublishedFile_QueryFiles_Request::spec_prefix);
        reveal(opt_bool);
        let apply = Self::apply_fn();
        let s = Self::spec_prefix(v, 34);
        lemma_fold_opt(s, 21, match v.return_children { Some(x) => Some(enc_bool(x)), None => None }, apply);
        assert(SpecCPublishedFile_QueryFiles_Request { return_children: v.return_children, ..s } == Self::spec_prefix(v, 35));
    }

    /// Reading field 22 back, after the fields before it.
    proof fn lemma_field_return_short_description(v: SpecCPublishedFile_QueryFiles_Request)
        ensures
            fold_fields(Self::spec_prefix(v, 35), opt_bool(22, v.return_short_description), Self::apply_fn())
                == Ok::<SpecCPublishedFile_QueryFiles_Request, WireError>(Self::spec_prefix(v, 36)),
    {
        reveal(CPublishedFile_QueryFiles_Request::spec_prefix);
        reveal(opt_bool);
        let apply = Self::apply_fn();
        let s = Self::spec_prefix(v, 35);
        lemma_fold_opt(s, 22, match v.return_short_description { Some(x) => Some(enc_bool(x)), None => None }, apply);
        assert(SpecCPublishedFile_QueryFiles_Request { return_short_description: v.return_short_description, ..s } == Self::spec_prefix(v, 36));
    }

    /// Reading field 30 back, after the fields before it.
    proof fn lemma_field_return_for_sale_data(v: SpecCPublishedFile_QueryFiles_Request)
        ensures
            fold_fields(Self::spec_prefix(v, 36), opt_bool(30, v.return_for_sale_data), Self::apply_fn())
                == Ok::<SpecCPublishedFile_QueryFiles_Request, WireError>(Self::spec_prefix(v, 37)),
    {
        reveal(CPublishedFile_QueryFiles_Request::spec_prefix);
        reveal(opt_bool);
        let apply = Self::apply_fn();
        let s = Self::spec_prefix(v, 36);
        lemma_fold_opt(s, 30, match v.return_for_sale_data { Some(x) => Some(enc_bool(x)), None => None }, apply);
        assert(SpecCPublishedFile_QueryFiles_Request { return_for_sale_data: v.return_for_sale_data, ..s } == Self::spec_prefix(v, 37));
    }

    /// Reading field 32 back, after the fields before it.
    proof fn lemma_field_return_metadata(v: SpecCPublishedFile_QueryFiles_Request)
        ensures
            fold_fields(Self::spec_prefix(v, 37), opt_bool(32, v.return_metadata), Self::apply_fn())
                == Ok::<SpecCPublishedFile_QueryFiles_Request, WireError>(Self::spec_prefix(v, 38)),
    {
        reveal(CPublishedFile_QueryFiles_Request::spec_prefix);
        reveal(opt_bool);
        let apply = Self::apply_fn();
        let s = Self::spec_prefix(v, 37);
        lemma_fold_opt(s, 32, match v.return_metadata { Some(x) => Some(enc_bool(x)), None => None }, apply);
        assert(SpecCPublishedFile_QueryFiles_Request { return_metadata: v.return_metadata, ..s } == Self::spec_prefix(v, 38));
    }

    /// Reading field 36 back, after the fields before it.
    proof fn lemma_field_return_playtime_stats(v: SpecCPublishedFile_QueryFiles_Request)
        ensures
            fold_fields(Self::spec_prefix(v, 38), opt_u32(36, v.return_playtime_stats), Self::apply_fn())
                == Ok::<SpecCPublishedFile_QueryFiles_Request, WireError>(Self::spec_prefix(v, 39)),
    {
        reveal(CPublishedFile_QueryFiles_Request::spec_prefix);
        reveal(opt_u32);
        let apply = Self::apply_fn();
        let s = Self::spec_prefix(v, 38);
        lemma_fold_opt(s, 36, match v.return_playtime_stats { Some(x) => Some(enc_u32(x)), None => None }, apply);
        if let Some(x) = v.return_playtime_stats {
            lemma_u32_roundtrip(x);
        }
        assert(SpecCPublishedFile_QueryFiles_Request { return_playtime_stats: v.return_playtime_stats, ..s } == Self::spec_prefix(v, 39));
    }

    /// Reading field 37 back, after the fields before it.
    proof fn lemma_field_return_details(v: SpecCPublishedFile_QueryFiles_Request)
        ensures
            fold_fields(Self::spec_prefix(v, 39), opt_bool(37, v.return_details), Self::apply_fn())
                == Ok::<SpecCPublishedFile_QueryFiles_Request, WireError>(Self::spec_prefix(v, 40)),
    {
        reveal(CPublishedFile_QueryFiles_Request::spec_prefix);
        reveal(opt_bool);
        let apply = Self::apply_fn();
        let s = Self::spec_prefix(v, 39);
        lemma_fold_opt(s, 37, match v.return_details { Some(x) => Some(enc_bool(x)), None => None }, apply);
        assert(SpecCPublishedFile_QueryFiles_Request { return_details: v.return_details, ..s } == Self::spec_prefix(v, 40));
    }

    /// Reading field 38 back, after the fields before it.
    proof fn lemma_field_strip_description_bbcode(v: SpecCPublishedFile_QueryFiles_Request)
        ensures
            fold_fields(Self::spec_prefix(v, 40), opt_bool(38, v.strip_description_bbcode), Self::apply_fn())
                == Ok::<SpecCPublishedFile_QueryFiles_Request, WireError>(Self::spec_prefix(v, 41)),
    {
        reveal(CPublishedFile_QueryFiles_Request::spec_prefix);
        reveal(opt_bool);
        let apply = Self::apply_fn();
        let s = Self::spec_prefix(v, 40);
        lemma_fold_opt(s, 38, match v.strip_description_bbcode { Some(x) => Some(enc_bool(x)), None => None }, apply);
        assert(SpecCPublishedFile_QueryFiles_Request { strip_description_bbcode: v.strip_description_bbcode, ..s } == Self::spec_prefix(v, 41));
    }

    /// Reading field 40 back, after the fields before it.
    proof fn lemma_field_desired_revision(v: SpecCPublishedFile_QueryFiles_Request)
        ensures
            fold_fields(Self::spec_prefix(v, 41), opt_i32(40, v.desired_revision), Self::apply_fn())
                == Ok::<SpecCPublishedFile_QueryFiles_Request, WireError>(Self::spec_prefix(v, 42)),
    {
        reveal(CPublishedFile_QueryFiles_Request::spec_prefix);
        reveal(opt_i32);
        let apply = Self::apply_fn();
        let s = Self::spec_prefix(v, 41);
        lemma_fold_opt(s, 40, match v.desired_revision { Some(x) => Some(enc_i32(x)), None => None }, apply);
        if let Some(x) = v.desired_revision {
            lemma_i32_roundtrip(x);
        }
        assert(SpecCPublishedFile_QueryFiles_Request { desired_revision: v.desired_revision, ..s } == Self::spec_prefix(v, 42));
    }

    /// Reading field 43 back, after the fields before it.
    proof fn lemma_field_return_reactions(v: SpecCPublishedFile_QueryFiles_Request)
        ensures
            fold_fields(Self::spec_prefix(v, 42), opt_bool(43, v.return_reactions), Self::apply_fn())
                == Ok::<SpecCPublishedFile_QueryFiles_Request, WireError>(Self::spec_prefix(v, 43)),
    {
        reveal(CPublishedFile_QueryFiles_Request::spec_prefix);
        reveal(opt_bool);
        let apply = Self::apply_fn();
        let s = Self::spec_prefix(v, 42);
        lemma_fold_opt(s, 43, match v.return_reactions { Some(x) => Some(enc_bool(x)), None => None }, apply);
        assert(SpecCPublishedFile_QueryFiles_Request { return_reactions: v.return_reactions, ..s } == Self::spec_prefix(v, 43));
    }

    /// Whether this message declares field number `n`.
    pub open spec fn declares(n: u32) -> bool {
        n == 1 || n == 2 || n == 39 || n == 3 || n == 4 || n == 5 || n == 6 || n == 7 || n == 8 || n == 9 || n == 10 || n == 11 || n == 12 || n == 13 || n == 14 || n == 15 || n == 31 || n == 33 || n == 34 || n == 42 || n == 44 || n == 45 || n == 46 || n == 47 || n == 48 || n == 49 || n == 51 || n == 50 || n == 16 || n == 35 || n == 17 || n == 18 || n == 19 || n == 20 || n == 21 || n == 22 || n == 30 || n == 32 || n == 36 || n == 37 || n == 38 || n == 40 || n == 43
    }

    /// A record with a number this message does not declare is passed over: well-formed
    /// bytes decode to the same message with such a record after them as without it.
    pub proof fn lemma_unknown_field(bytes: Seq<u8>, f: SpecField)
        requires
            parse_fields(bytes) is Ok,
            field_wf(f),
            !Self::declares(f.number),
        ensures
            Self::spec_decode(bytes + field_bytes(f)) == Self::spec_decode(bytes),
    {
        reveal(CPublishedFile_QueryFiles_Request::spec_decode);
        lemma_parse_fields_append(bytes, f);
        let fs = parse_fields(bytes).unwrap();
        let apply = Self::apply_fn();
        lemma_fold_concat(Self::spec_default(), fs, seq![f], apply);
        assert(fs.push(f) =~= fs + seq![f]);
        if let Ok(w) = fold_fields(Self::spec_default(), fs, apply) {
            lemma_fold_single(w, f, apply);
        }
        lemma_merge_run_fold(Self::spec_default(), bytes, apply);
        lemma_merge_run_fold(Self::spec_default(), bytes + field_bytes(f), apply);
    }

    /// Decoding the encoding of a message gives the message back.
    pub proof fn lemma_decode_encode(v: SpecCPublishedFile_QueryFiles_Request)
        requires
            Self::spec_encode(v).len() <= u64::MAX,
        ensures
            Self::spec_decode(Self::spec_encode(v)) == Ok::<SpecCPublishedFile_QueryFiles_Request, WireError>(v),
    {
        let apply = Self::apply_fn();
        let d = Self::spec_default();
        let p0 = Seq::<SpecField>::empty();
        let l1 = opt_u32(1, v.query_type);
        let p1 = p0 + l1;
        let l2 = opt_u32(2, v.page);
        let p2 = p1 + l2;
        let l3 = opt_string(39, v.cursor);
        let p3 = p2 + l3;
        let l4 = opt_u32(3, v.numperpage);
        let p4 = p3 + l4;
        let l5 = opt_u32(4, v.creator_appid);
        let p5 = p4 + l5;
        let l6 = opt_u32(5, v.appid);
        let p6 = p5 + l6;
        let l7 = rep_string(6, v.requiredtags);
        let p7 = p6 + l7;
        let l8 = rep_string(7, v.excludedtags);
        let p8 = p7 + l8;
        let l9 = opt_bool(8, v.match_all_tags);
        let p9 = p8 + l9;
        let l10 = rep_string(9, v.required_flags);
        let p10 = p9 + l10;
        let l11 = rep_string(10, v.omitted_flags);
        let p11 = p10 + l11;
        let l12 = opt_string(11, v.search_text);
        let p12 = p11 + l12;
        let l13 = opt_u32(12, v.filetype);
        let p13 = p12 + l13;
        let l14 = opt_fixed64(13, v.child_publishedfileid);
        let p14 = p13 + l14;
        let l15 = opt_u32(14, v.days);
        let p15 = p14 + l15;
        let l16 = opt_bool(15, v.include_recent_votes_only);
        let p16 = p15 + l16;
        let l17 = opt_u32(31, v.cache_max_age_seconds);
        let p17 = p16 + l17;
        let l18 = opt_i32(33, v.language);
        let p18 = p17 + l18;
        let l19 = rep_bytes(34, crate::steammessages_publishedfile_steamclient::c_published_file_query_files_request::KVTag::spec_encode_all(v.required_kv_tags));
        let p19 = p18 + l19;
        let l20 = rep_bytes(42, crate::steammessages_publishedfile_steamclient::c_published_file_query_files_request::TagGroup::spec_encode_all(v.taggroups));
        let p20 = p19 + l20;
        let l21 = opt_bytes(44, crate::steammessages_publishedfile_steamclient::c_published_file_query_files_request::DateRange::spec_encode_opt(v.date_range_created));
        let p21 = p20 + l21;
        let l22 = opt_bytes(45, crate::steammessages_publishedfile_steamclient::c_published_file_query_files_request::DateRange::spec_encode_opt(v.date_range_updated));
        let p22 = p21 + l22;
        let l23 = rep_i32(46, v.excluded_content_descriptors);
        let p23 = p22 + l23;
        let l24 = opt_bool(47, v.admin_query);
        let p24 = p23 + l24;
        let l25 = opt_i32(48, v.special_filter);
        let p25 = p24 + l25;
        let l26 = rep_u32(49, v.appids_required_for_use);
        let p26 = p25 + l26;
        let l27 = rep_u32(51, v.excluded_appids_required_for_use);
        let p27 = p26 + l27;
        let l28 = opt_i32(50, v.search_text_target);
        let p28 = p27 + l28;
        let l29 = opt_bool(16, v.totalonly);
        let p29 = p28 + l29;
        let l30 = opt_bool(35, v.ids_only);
        let p30 = p29 + l30;
        let l31 = opt_bool(17, v.return_vote_data);
        let p31 = p30 + l31;
        let l32 = opt_bool(18, v.return_tags);
        let p32 = p31 + l32;
        let l33 = opt_bool(19, v.return_kv_tags);
        let p33 = p32 + l33;
        let l34 = opt_bool(20, v.return_previews);
        let p34 = p33 + l34;
        let l35 = opt_bool(21, v.return_children);
        let p35 = p34 + l35;
        let l36 = opt_bool(22, v.return_short_description);
        let p36 = p35 + l36;
        let l37 = opt_bool(30, v.return_for_sale_data);
        let p37 = p36 + l37;
        let l38 = opt_bool(32, v.return_metadata);
        let p38 = p37 + l38;
        let l39 = opt_u32(36, v.return_playtime_stats);
        let p39 = p38 + l39;
        let l40 = opt_bool(37, v.return_details);
        let p40 = p39 + l40;
        let l41 = opt_bool(38, v.strip_description_bbcode);
        let p41 = p40 + l41;
        let l42 = opt_i32(40, v.desired_revision);
        let p42 = p41 + l42;
        let l43 = opt_bool(43, v.return_reactions);
        let p43 = p42 + l43;
        assert(parse_fields(Self::spec_encode(v)) == Ok::<Seq<SpecField>, WireError>(p43) && fields_wf(l19) && fields_wf(l20) && fields_wf(l21) && fields_wf(l22)) by {
            reveal(CPublishedFile_QueryFiles_Request::spec_encode);
            assert(numbers_ok(p0) && fields_wf(p0)) by {
                reveal(numbers_ok);
                reveal(fields_wf);
            }
            lemma_opt_u32_numbered(1, v.query_type);
            lemma_fields_wf_concat(p0, l1);
            lemma_opt_u32_numbered(2, v.page);
            lemma_fields_wf_concat(p1, l2);
            lemma_opt_string_numbered(39, v.cursor);
            lemma_fields_wf_concat(p2, l3);
            lemma_opt_u32_numbered(3, v.numperpage);
            lemma_fields_wf_concat(p3, l4);
            lemma_opt_u32_numbered(4, v.creator_appid);
            lemma_fields_wf_concat(p4, l5);
            lemma_opt_u32_numbered(5, v.appid);
            lemma_fields_wf_concat(p5, l6);
            lemma_rep_string_numbered(6, v.requiredtags);
            lemma_fields_wf_concat(p6, l7);
            lemma_rep_string_numbered(7, v.excludedtags);
            lemma_fields_wf_concat(p7, l8);
            lemma_opt_bool_numbered(8, v.match_all_tags);
            lemma_fields_wf_concat(p8, l9);
            lemma_rep_string_numbered(9, v.required_flags);
            lemma_fields_wf_concat(p9, l10);
            lemma_rep_string_numbered(10, v.omitted_flags);
            lemma_fields_wf_concat(p10, l11);
            lemma_opt_string_numbered(11, v.search_text);
            lemma_fields_wf_concat(p11, l12);
            lemma_opt_u32_numbered(12, v.filetype);
            lemma_fields_wf_concat(p12, l13);
            lemma_opt_fixed64_numbered(13, v.child_publishedfileid);
            lemma_fields_wf_concat(p13, l14);
            lemma_opt_u32_numbered(14, v.days);
            lemma_fields_wf_concat(p14, l15);
            lemma_opt_bool_numbered(15, v.include_recent_votes_only);
            lemma_fields_wf_concat(p15, l16);
            lemma_opt_u32_numbered(31, v.cache_max_age_seconds);
            lemma_fields_wf_concat(p16, l17);
            lemma_opt_i32_numbered(33, v.language);
            lemma_fields_wf_concat(p17, l18);
            lemma_rep_bytes_numbered(34, crate::steammessages_publishedfile_steamclient::c_published_file_query_files_request::KVTag::spec_encode_all(v.required_kv_tags));
            lemma_fields_wf_concat(p18, l19);
            lemma_rep_bytes_numbered(42, crate::steammessages_publishedfile_steamclient::c_published_file_query_files_request::TagGroup::spec_encode_all(v.taggroups));
            lemma_fields_wf_concat(p19, l20);
            lemma_opt_bytes_numbered(44, crate::steammessages_publishedfile_steamclient::c_published_file_query_files_request::DateRange::spec_encode_opt(v.date_range_created));
            lemma_fields_wf_concat(p20, l21);
            lemma_opt_bytes_numbered(45, crate::steammessages_publishedfile_steamclient::c_published_file_query_files_request::DateRange::spec_encode_opt(v.date_range_updated));
            lemma_fields_wf_concat(p21, l22);
            lemma_rep_i32_numbered(46, v.excluded_content_descriptors);
            lemma_fields_wf_concat(p22, l23);
            lemma_opt_bool_numbered(47, v.admin_query);
            lemma_fields_wf_concat(p23, l24);
            lemma_opt_i32_numbered(48, v.special_filter);
            lemma_fields_wf_concat(p24, l25);
            lemma_rep_u32_numbered(49, v.appids_required_for_use);
            lemma_fields_wf_concat(p25, l26);
            lemma_rep_u32_numbered(51, v.excluded_appids_required_for_use);
            lemma_fields_wf_concat(p26, l27);
            lemma_opt_i32_numbered(50, v.search_text_target);
            lemma_fields_wf_concat(p27, l28);
            lemma_opt_bool_numbered(16, v.totalonly);
            lemma_fields_wf_concat(p28, l29);
            lemma_opt_bool_numbered(35, v.ids_only);
            lemma_fields_wf_concat(p29, l30);
            lemma_opt_bool_numbered(17, v.return_vote_data);
            lemma_fields_wf_concat(p30, l31);
            lemma_opt_bool_numbered(18, v.return_tags);
            lemma_fields_wf_concat(p31, l32);
            lemma_opt_bool_numbered(19, v.return_kv_tags);
            lemma_fields_wf_concat(p32, l33);
            lemma_opt_bool_numbered(20, v.return_previews);
            lemma_fields_wf_concat(p33, l34);
            lemma_opt_bool_numbered(21, v.return_children);
            lemma_fields_wf_concat(p34, l35);
            lemma_opt_bool_numbered(22, v.return_short_description);
            lemma_fields_wf_concat(p35, l36);
            lemma_opt_bool_numbered(30, v.return_for_sale_data);
            lemma_fields_wf_concat(p36, l37);
            lemma_opt_bool_numbered(32, v.return_metadata);
            lemma_fields_wf_concat(p37, l38);
            lemma_opt_u32_numbered(36, v.return_playtime_stats);
            lemma_fields_wf_concat(p38, l39);
            lemma_opt_bool_numbered(37, v.return_details);
            lemma_fields_wf_concat(p39, l40);
            lemma_opt_bool_numbered(38, v.strip_description_bbcode);
            lemma_fields_wf_concat(p40, l41);
            lemma_opt_i32_numbered(40, v.desired_revision);
            lemma_fields_wf_concat(p41, l42);
            lemma_opt_bool_numbered(43, v.return_reactions);
            lemma_fields_wf_concat(p42, l43);
            assert(p43 == Self::spec_fields(v));
            lemma_fields_wf_from_len(p43);
            lemma_fields_roundtrip(p43);
        }
        assert(Self::spec_prefix(v, 0) == d) by {
            reveal(CPublishedFile_QueryFiles_Request::spec_prefix);
        }
        lemma_fold_empty(d, apply);
        lemma_fold_concat(d, p0, l1, apply);
        Self::lemma_field_query_type(v);
        lemma_fold_concat(d, p1, l2, apply);
        Self::lemma_field_page(v);
        lemma_fold_concat(d, p2, l3, apply);
        Self::lemma_field_cursor(v);
        lemma_fold_concat(d, p3, l4, apply);
        Self::lemma_field_numperpage(v);
        lemma_fold_concat(d, p4, l5, apply);
        Self::lemma_field_creator_appid(v);
        lemma_fold_concat(d, p5, l6, apply);
        Self::lemma_field_appid(v);
        lemma_fold_concat(d, p6, l7, apply);
        Self::lemma_field_requiredtags(v);
        lemma_fold_concat(d, p7, l8, apply);
        Self::lemma_field_excludedtags(v);
        lemma_fold_concat(d, p8, l9, apply);
        Self::lemma_field_match_all_tags(v);
        lemma_fold_concat(d, p9, l10, apply);
        Self::lemma_field_required_flags(v);
        lemma_fold_concat(d, p10, l11, apply);
        Self::lemma_field_omitted_flags(v);
        lemma_fold_concat(d, p11, l12, apply);
        Self::lemma_field_search_text(v);
        lemma_fold_concat(d, p12, l13, apply);
        Self::lemma_field_filetype(v);
        lemma_fold_concat(d, p13, l14, apply);
        Self::lemma_field_child_publishedfileid(v);
        lemma_fold_concat(d, p14, l15, apply);
        Self::lemma_field_days(v);
        lemma_fold_concat(d, p15, l16, apply);
        Self::lemma_field_include_recent_votes_only(v);
        lemma_fold_concat(d, p16, l17, apply);
        Self::lemma_field_cache_max_age_seconds(v);
        lemma_fold_concat(d, p17, l18, apply);
        Self::lemma_field_language(v);
        lemma_fold_concat(d, p18, l19, apply);
        Self::lemma_field_required_kv_tags(v);
        lemma_fold_concat(d, p19, l20, apply);
        Self::lemma_field_taggroups(v);
        lemma_fold_concat(d, p20, l21, apply);
        Self::lemma_field_date_range_created(v);
        lemma_fold_concat(d, p21, l22, apply);
        Self::lemma_field_date_range_updated(v);
        lemma_fold_concat(d, p22, l23, apply);
        Self::lemma_field_excluded_content_descriptors(v);
        lemma_fold_concat(d, p23, l24, apply);
        Self::lemma_field_admin_query(v);
        lemma_fold_concat(d, p24, l25, apply);
        Self::lemma_field_special_filter(v);
        lemma_fold_concat(d, p25, l26, apply);
        Self::lemma_field_appids_required_for_use(v);
        lemma_fold_concat(d, p26, l27, apply);
        Self::lemma_field_excluded_appids_required_for_use(v);
        lemma_fold_concat(d, p27, l28, apply);
        Self::lemma_field_search_text_target(v);
        lemma_fold_concat(d, p28, l29, apply);
        Self::lemma_field_totalonly(v);
        lemma_fold_concat(d, p29, l30, apply);
        Self::lemma_field_ids_only(v);
        lemma_fold_concat(d, p30, l31, apply);
        Self::lemma_field_return_vote_data(v);
        lemma_fold_concat(d, p31, l32, apply);
        Self::lemma_field_return_tags(v);
        lemma_fold_concat(d, p32, l33, apply);
        Self::lemma_field_return_kv_tags(v);
        lemma_fold_concat(d, p33, l34, apply);
        Self::lemma_field_return_previews(v);
        lemma_fold_concat(d, p34, l35, apply);
        Self::lemma_field_return_children(v);
        lemma_fold_concat(d, p35, l36, apply);
        Self::lemma_field_return_short_description(v);
        lemma_fold_concat(d, p36, l37, apply);
        Self::lemma_field_return_for_sale_data(v);
        lemma_fold_concat(d, p37, l38, apply);
        Self::lemma_field_return_metadata(v);
        lemma_fold_concat(d, p38, l39, apply);
        Self::lemma_field_return_playtime_stats(v);
        lemma_fold_concat(d, p39, l40, apply);
        Self::lemma_field_return_details(v);
        lemma_fold_concat(d, p40, l41, apply);
        Self::lemma_field_strip_description_bbcode(v);
        lemma_fold_concat(d, p41, l42, apply);
        Self::lemma_field_desired_revision(v);
        lemma_fold_concat(d, p42, l43, apply);
        Self::lemma_field_return_reactions(v);
        assert(Self::spec_prefix(v, 43) == v) by {
            reveal(CPublishedFile_QueryFiles_Request::spec_prefix);
        }
        lemma_merge_run_fold(d, Self::spec_encode(v), apply);
        assert(Self::spec_decode(Self::spec_encode(v)) == Ok::<SpecCPublishedFile_QueryFiles_Request, WireError>(v)) by {
            reveal(CPublishedFile_QueryFiles_Request::spec_decode);
        }
    }
}

/// `CPublishedFile_QueryFiles_Response`, as Valve's schema declares it.
#[derive(Debug, Clone, PartialEq)]
pub struct CPublishedFile_QueryFiles_Response {
    /// Field 1.
    pub total: Option<u32>,
    /// Field 2.
    pub publishedfiledetails: Vec<crate::steammessages_publishedfile_steamclient::PublishedFileDetails>,
    /// Field 3.
    pub next_cursor: Option<String>,
}

/// What a `CPublishedFile_QueryFiles_Response` holds, as mathematical values.
#[verifier::ext_equal]
pub struct SpecCPublishedFile_QueryFiles_Response {
    pub total: Option<u32>,
    pub publishedfiledetails: Seq<crate::steammessages_publishedfile_steamclient::SpecPublishedFileDetails>,
    pub next_cursor: Option<Seq<char>>,
}

impl View for CPublishedFile_QueryFiles_Response {
    type V = SpecCPublishedFile_QueryFiles_Response;

    open spec fn view(&self) -> SpecCPublishedFile_QueryFiles_Response {
        SpecCPublishedFile_QueryFiles_Response {
            total: self.total,
            publishedfiledetails: crate::steammessages_publishedfile_steamclient::PublishedFileDetails::view_all(self.publishedfiledetails@),
            next_cursor: opt_string_view(self.next_cursor),
        }
    }
}

impl Default for CPublishedFile_QueryFiles_Response {
    fn default() -> (r: Self)
        ensures
            r@ == CPublishedFile_QueryFiles_Response::spec_default(),
    {
        CPublishedFile_QueryFiles_Response {
            total: None,
            publishedfiledetails: Vec::new(),
            next_cursor: None,
        }
    }
}

impl CPublishedFile_QueryFiles_Response {
    pub open spec fn spec_default() -> SpecCPublishedFile_QueryFiles_Response {
        SpecCPublishedFile_QueryFiles_Response {
            total: None,
            publishedfiledetails: Seq::empty(),
            next_cursor: None,
        }
    }

    /// The records a `CPublishedFile_QueryFiles_Response` is written as, in field order.
    pub open spec fn spec_fields(v: SpecCPublishedFile_QueryFiles_Response) -> Seq<SpecField> {
        Seq::<SpecField>::empty()
            + opt_u32(1, v.total)
            + rep_bytes(2, crate::steammessages_publishedfile_steamclient::PublishedFileDetails::spec_encode_all(v.publishedfiledetails))
            + opt_string(3, v.next_cursor)
    }

    #[verifier::opaque]
    pub open spec fn spec_encode(v: SpecCPublishedFile_QueryFiles_Response) -> Seq<u8> {
        fields_bytes(Self::spec_fields(v))
    }

    /// What one record does to the message: a declared number sets or extends its
    /// field, any other number is left alone.
    pub open spec fn spec_apply(v: SpecCPublishedFile_QueryFiles_Response, f: SpecField) -> Result<SpecCPublishedFile_QueryFiles_Response, WireError> {
        match f.number {
            1 => match dec_u32(f.value) {
                Ok(x) => Ok(SpecCPublishedFile_QueryFiles_Response { total: Some(x), ..v }),
                Err(e) => Err(e),
            },
            2 => match dec_bytes(f.value) {
                Ok(b) => match crate::steammessages_publishedfile_steamclient::PublishedFileDetails::spec_decode(b) {
                    Ok(m) => Ok(SpecCPublishedFile_QueryFiles_Response { publishedfiledetails: v.publishedfiledetails.push(m), ..v }),
                    Err(e) => Err(e),
                },
                Err(e) => Err(e),
            },
            3 => match dec_string(f.value) {
                Ok(x) => Ok(SpecCPublishedFile_QueryFiles_Response { next_cursor: Some(x), ..v }),
                Err(e) => Err(e),
            },
            _ => Ok(v),
        }
    }

    pub open spec fn apply_fn() -> spec_fn(SpecCPublishedFile_QueryFiles_Response, SpecField) -> Result<SpecCPublishedFile_QueryFiles_Response, WireError> {
        |v: SpecCPublishedFile_QueryFiles_Response, f: SpecField| Self::spec_apply(v, f)
    }

    /// The message `bytes` makes of `v`: its records applied in order, or the error
    /// that stops the reading.
    pub open spec fn spec_merge(v: SpecCPublishedFile_QueryFiles_Response, bytes: Seq<u8>) -> Result<SpecCPublishedFile_QueryFiles_Response, WireError> {
        let (w, stop) = merge_run(v, bytes, Self::apply_fn());
        match stop {
            None => Ok(w),
            Some(e) => Err(e),
        }
    }

    #[verifier::opaque]
    pub open spec fn spec_decode(bytes: Seq<u8>) -> Result<SpecCPublishedFile_QueryFiles_Response, WireError> {
        Self::spec_merge(Self::spec_default(), bytes)
    }

    /// This message with one record applied to it, or, when the record is refused,
    /// the message unchanged and the reason.
    fn applied(self, f: &Field) -> (r: Result<Self, (Self, WireError)>)
        ensures
            match Self::spec_apply(self@, f@) {
                Ok(v) => r matches Ok(m) && m@ == v,
                Err(e) => r matches Err((m, x)) && x == e && m@ == self@,
            },
    {
        match f.number {
            1 => match read_u32(&f.value) {
                Ok(x) => Ok(Self { total: Some(x), ..self }),
                Err(e) => Err((self, e)),
            },
            2 => match read_payload(&f.value) {
                Ok(b) => match crate::steammessages_publishedfile_steamclient::PublishedFileDetails::decode(b) {
                    Ok(x) => {
                        let mut m = self;
                        let ghost before = m.publishedfiledetails@;
                        m.publishedfiledetails.push(x);
                        assert(crate::steammessages_publishedfile_steamclient::PublishedFileDetails::view_all(m.publishedfiledetails@) =~= crate::steammessages_publishedfile_steamclient::PublishedFileDetails::view_all(before).push(x@));
                        Ok(m)
                    },
                    Err(e) => Err((self, e)),
                },
                Err(e) => Err((self, e)),
            },
            3 => match read_string(&f.value) {
                Ok(x) => Ok(Self { next_cursor: Some(x), ..self }),
                Err(e) => Err((self, e)),
            },
            _ => Ok(self),
        }
    }

    /// Reads the records `bytes` holds into this message, in order. When a record does
    /// not parse or is refused, the reading stops there: the message keeps what the
    /// records before it gave, and the error is returned.
    pub fn merge(&mut self, bytes: &[u8]) -> (r: Result<(), WireError>)
        ensures
            final(self)@ == merge_run(old(self)@, bytes@, Self::apply_fn()).0,
            r == match merge_run(old(self)@, bytes@, Self::apply_fn()).1 {
                None => Ok::<(), WireError>(()),
                Some(e) => Err::<(), WireError>(e),
            },
    {
        let ghost total = merge_run(self@, bytes@, Self::apply_fn());
        let mut cur = Self::default();
        std::mem::swap(&mut cur, self);
        let mut pos: usize = 0;
        assert(bytes@.skip(0) =~= bytes@);
        while pos < bytes.len()
            invariant
                pos <= bytes@.len(),
                total == merge_run(old(self)@, bytes@, Self::apply_fn()),
                merge_run(cur@, bytes@.skip(pos as int), Self::apply_fn()) == total,
            decreases bytes@.len() - pos,
        {
            let ghost s = bytes@.skip(pos as int);
            proof {
                lemma_merge_run_step(cur@, s, Self::apply_fn());
                lemma_parse_field_len(s);
            }
            match read_field(bytes, pos) {
                Ok((f, end)) => {
                    assert(bytes@.skip(end as int) =~= s.skip((end - pos) as int));
                    match cur.applied(&f) {
                        Ok(m) => {
                            cur = m;
                        },
                        Err((m, e)) => {
                            *self = m;
                            return Err(e);
                        },
                    }
                    pos = end;
                },
                Err(e) => {
                    *self = cur;
                    return Err(e);
                },
            }
        }
        assert(bytes@.skip(pos as int) =~= Seq::<u8>::empty());
        proof {
            lemma_merge_run_empty(cur@, Self::apply_fn());
        }
        *self = cur;
        Ok(())
    }

    /// Decodes a message from its encoding.
    pub fn decode(bytes: &[u8]) -> (r: Result<Self, WireError>)
        ensures
            match Self::spec_decode(bytes@) {
                Ok(v) => r matches Ok(m) && m@ == v,
                Err(e) => r matches Err(x) && x == e,
            },
    {
        proof {
            reveal(CPublishedFile_QueryFiles_Response::spec_decode);
        }
        let mut m = Self::default();
        match m.merge(bytes) {
            Ok(()) => Ok(m),
            Err(e) => Err(e),
        }
    }

    /// The encoding of this message.
    pub fn encode_to_vec(&self) -> (r: Vec<u8>)
        ensures
            r@ == Self::spec_encode(self@),
    {
        let enc_publishedfiledetails = crate::steammessages_publishedfile_steamclient::PublishedFileDetails::encode_all(&self.publishedfiledetails);
        let ghost v = self@;
        let mut out: Vec<u8> = Vec::new();
        let ghost p0 = Seq::<SpecField>::empty();
        put_opt_u32(&mut out, 1, self.total);
        let ghost p1 = p0 + opt_u32(1, v.total);
        proof {
            lemma_fields_bytes_concat(p0, opt_u32(1, v.total));
        }
        put_rep_bytes(&mut out, 2, &enc_publishedfiledetails);
        let ghost p2 = p1 + rep_bytes(2, crate::steammessages_publishedfile_steamclient::PublishedFileDetails::spec_encode_all(v.publishedfiledetails));
        proof {
            lemma_fields_bytes_concat(p1, rep_bytes(2, crate::steammessages_publishedfile_steamclient::PublishedFileDetails::spec_encode_all(v.publishedfiledetails)));
        }
        put_opt_string(&mut out, 3, &self.next_cursor);
        let ghost p3 = p2 + opt_string(3, v.next_cursor);
        proof {
            lemma_fields_bytes_concat(p2, opt_string(3, v.next_cursor));
        }
        proof {
            reveal(CPublishedFile_QueryFiles_Response::spec_encode);
        }
        assert(p3 == Self::spec_fields(v));
        out
    }

    /// Appends the encoding of this message to `out`.
    pub fn encode_raw(&self, out: &mut Vec<u8>)
        ensures
            final(out)@ == old(out)@ + Self::spec_encode(self@),
    {
        let mut b = self.encode_to_vec();
        out.append(&mut b);
    }

    /// The first `k` fields of `v`, the others as a fresh message has them.
    #[verifier::opaque]
    pub open spec fn spec_prefix(v: SpecCPublishedFile_QueryFiles_Response, k: int) -> SpecCPublishedFile_QueryFiles_Response {
        SpecCPublishedFile_QueryFiles_Response {
            total: if 1 <= k { v.total } else { None },
            publishedfiledetails: if 2 <= k { v.publishedfiledetails } else { Seq::empty() },
            next_cursor: if 3 <= k { v.next_cursor } else { None },
        }
    }

    /// Reading field 1 back, after the fields before it.
    proof fn lemma_field_total(v: SpecCPublishedFile_QueryFiles_Response)
        ensures
            fold_fields(Self::spec_prefix(v, 0), opt_u32(1, v.total), Self::apply_fn())
                == Ok::<SpecCPublishedFile_QueryFiles_Response, WireError>(Self::spec_prefix(v, 1)),
    {
        reveal(CPublishedFile_QueryFiles_Response::spec_prefix);
        reveal(opt_u32);
        let apply = Self::apply_fn();
        let s = Self::spec_prefix(v, 0);
        lemma_fold_opt(s, 1, match v.total { Some(x) => Some(enc_u32(x)), None => None }, apply);
        if let Some(x) = v.total {
            lemma_u32_roundtrip(x);
        }
        assert(SpecCPublishedFile_QueryFiles_Response { total: v.total, ..s } == Self::spec_prefix(v, 1));
    }

    /// Reading field 2 back, after the fields before it.
    proof fn lemma_field_publishedfiledetails(v: SpecCPublishedFile_QueryFiles_Response)
        requires
            fields_wf(rep_bytes(2, crate::steammessages_publishedfile_steamclient::PublishedFileDetails::spec_encode_all(v.publishedfiledetails))),
        ensures
            fold_fields(Self::spec_prefix(v, 1), rep_bytes(2, crate::steammessages_publishedfile_steamclient::PublishedFileDetails::spec_encode_all(v.publishedfiledetails)), Self::apply_fn())
                == Ok::<SpecCPublishedFile_QueryFiles_Response, WireError>(Self::spec_prefix(v, 2)),
    {
        reveal(CPublishedFile_QueryFiles_Response::spec_prefix);
        reveal(rep_bytes);
        reveal(fields_wf);
        let apply = Self::apply_fn();
        let s = Self::spec_prefix(v, 1);
        let l = rep_bytes(2, crate::steammessages_publishedfile_steamclient::PublishedFileDetails::spec_encode_all(v.publishedfiledetails));
        let xs = v.publishedfiledetails;
        let st = Seq::new((xs.len() + 1) as nat, |j: int| SpecCPublishedFile_QueryFiles_Response { publishedfiledetails: xs.take(j), ..s });
        assert forall|j: int| 0 <= j < l.len() implies #[trigger] apply(st[j], l[j]) == Ok::<SpecCPublishedFile_QueryFiles_Response, WireError>(st[j + 1]) by {
            assert(field_wf(l[j]));
            crate::steammessages_publishedfile_steamclient::PublishedFileDetails::lemma_decode_encode(xs[j]);
            assert(xs.take(j).push(xs[j]) =~= xs.take(j + 1));
        }
        lemma_fold_chain(l, st, apply);
        assert(xs.take(0) =~= Seq::<crate::steammessages_publishedfile_steamclient::SpecPublishedFileDetails>::empty());
        assert(xs.take(xs.len() as int) =~= xs);
        assert(st[0] == s);
        assert(st[xs.len() as int] == Self::spec_prefix(v, 2));
    }

    /// Reading field 3 back, after the fields before it.
    proof fn lemma_field_next_cursor(v: SpecCPublishedFile_QueryFiles_Response)
        ensures
            fold_fields(Self::spec_prefix(v, 2), opt_string(3, v.next_cursor), Self::apply_fn())
                == Ok::<SpecCPublishedFile_QueryFiles_Response, WireError>(Self::spec_prefix(v, 3)),
    {
        reveal(CPublishedFile_QueryFiles_Response::spec_prefix);
        reveal(opt_string);
        let apply = Self::apply_fn();
        let s = Self::spec_prefix(v, 2);
        lemma_fold_opt(s, 3, match v.next_cursor { Some(x) => Some(enc_string(x)), None => None }, apply);
        if let Some(x) = v.next_cursor {
            lemma_string_roundtrip(x);
        }
        assert(SpecCPublishedFile_QueryFiles_Response { next_cursor: v.next_cursor, ..s } == Self::spec_prefix(v, 3));
    }

    /// Whether this message declares field number `n`.
    pub open spec fn declares(n: u32) -> bool {
        n == 1 || n == 2 || n == 3
    }

    /// A record with a number this message does not declare is passed over: well-formed
    /// bytes decode to the same message with such a record after them as without it.
    pub proof fn lemma_unknown_field(bytes: Seq<u8>, f: SpecField)
        requires
            parse_fields(bytes) is Ok,
            field_wf(f),
            !Self::declares(f.number),
        ensures
            Self::spec_decode(bytes + field_bytes(f)) == Self::spec_decode(bytes),
    {
        reveal(CPublishedFile_QueryFiles_Response::spec_decode);
        lemma_parse_fields_append(bytes, f);
        let fs = parse_fields(bytes).unwrap();
        let apply = Self::apply_fn();
        lemma_fold_concat(Self::spec_default(), fs, seq![f], apply);
        assert(fs.push(f) =~= fs + seq![f]);
        if let Ok(w) = fold_fields(Self::spec_default(), fs, apply) {
            lemma_fold_single(w, f, apply);
        }
        lemma_merge_run_fold(Self::spec_default(), bytes, apply);
        lemma_merge_run_fold(Self::spec_default(), bytes + field_bytes(f), apply);
    }

    /// Decoding the encoding of a message gives the message back.
    pub proof fn lemma_decode_encode(v: SpecCPublishedFile_QueryFiles_Response)
        requires
            Self::spec_encode(v).len() <= u64::MAX,
        ensures
            Self::spec_decode(Self::spec_encode(v)) == Ok::<SpecCPublishedFile_QueryFiles_Response, WireError>(v),
    {
        let apply = Self::apply_fn();
        let d = Self::spec_default();
        let p0 = Seq::<SpecField>::empty();
        let l1 = opt_u32(1, v.total);
        let p1 = p0 + l1;
        let l2 = rep_bytes(2, crate::steammessages_publishedfile_steamclient::PublishedFileDetails::spec_encode_all(v.publishedfiledetails));
        let p2 = p1 + l2;
        let l3 = opt_string(3, v.next_cursor);
        let p3 = p2 + l3;
        assert(parse_fields(Self::spec_encode(v)) == Ok::<Seq<SpecField>, WireError>(p3) && fields_wf(l2)) by {
            reveal(CPublishedFile_QueryFiles_Response::spec_encode);
            assert(numbers_ok(p0) && fields_wf(p0)) by {
                reveal(numbers_ok);
                reveal(fields_wf);
            }
            lemma_opt_u32_numbered(1, v.total);
            lemma_fields_wf_concat(p0, l1);
            lemma_rep_bytes_numbered(2, crate::steammessages_publishedfile_steamclient::PublishedFileDetails::spec_encode_all(v.publishedfiledetails));
            lemma_fields_wf_concat(p1, l2);
            lemma_opt_string_numbered(3, v.next_cursor);
            lemma_fields_wf_concat(p2, l3);
            assert(p3 == Self::spec_fields(v));
            lemma_fields_wf_from_len(p3);
            lemma_fields_roundtrip(p3);
        }
        assert(Self::spec_prefix(v, 0) == d) by {
            reveal(CPublishedFile_QueryFiles_Response::spec_prefix);
        }
        lemma_fold_empty(d, apply);
        lemma_fold_concat(d, p0, l1, apply);
        Self::lemma_field_total(v);
        lemma_fold_concat(d, p1, l2, apply);
        Self::lemma_field_publishedfiledetails(v);
        lemma_fold_concat(d, p2, l3, apply);
        Self::lemma_field_next_cursor(v);
        assert(Self::spec_prefix(v, 3) == v) by {
            reveal(CPublishedFile_QueryFiles_Response::spec_prefix);
        }
        lemma_merge_run_fold(d, Self::spec_encode(v), apply);
        assert(Self::spec_decode(Self::spec_encode(v)) == Ok::<SpecCPublishedFile_QueryFiles_Response, WireError>(v)) by {
            reveal(CPublishedFile_QueryFiles_Response::spec_decode);
        }
    }
}

/// `CPublishedFile_AddAppRelationship_Request`, as Valve's schema declares it.
#[derive(Debug, Clone, PartialEq)]
pub struct CPublishedFile_AddAppRelationship_Request {
    /// Field 1.
    pub publishedfileid: Option<u64>,
    /// Field 2.
    pub appid: Option<u32>,
    /// Field 3.
    pub relationship: Option<u32>,
}

/// What a `CPublishedFile_AddAppRelationship_Request` holds, as mathematical values.
#[verifier::ext_equal]
pub struct SpecCPublishedFile_AddAppRelationship_Request {
    pub publishedfileid: Option<u64>,
    pub appid: Option<u32>,
    pub relationship: Option<u32>,
}

impl View for CPublishedFile_AddAppRelationship_Request {
    type V = SpecCPublishedFile_AddAppRelationship_Request;

    open spec fn view(&self) -> SpecCPublishedFile_AddAppRelationship_Request {
        SpecCPublishedFile_AddAppRelationship_Request {
            publishedfileid: self.publishedfileid,
            appid: self.appid,
            relationship: self.relationship,
        }
    }
}

impl Default for CPublishedFile_AddAppRelationship_Request {
    fn default() -> (r: Self)
        ensures
            r@ == CPublishedFile_AddAppRelationship_Request::spec_default(),
    {
        CPublishedFile_AddAppRelationship_Request {
            publishedfileid: None,
            appid: None,
            relationship: None,
        }
    }
}

impl CPublishedFile_AddAppRelationship_Request {
    pub open spec fn spec_default() -> SpecCPublishedFile_AddAppRelationship_Request {
        SpecCPublishedFile_AddAppRelationship_Request {
            publishedfileid: None,
            appid: None,
            relationship: None,
        }
    }

    /// The records a `CPublishedFile_AddAppRelationship_Request` is written as, in field order.
    pub open spec fn spec_fields(v: SpecCPublishedFile_AddAppRelationship_Request) -> Seq<SpecField> {
        Seq::<SpecField>::empty()
            + opt_u64(1, v.publishedfileid)
            + opt_u32(2, v.appid)
            + opt_u32(3, v.relationship)
    }

    #[verifier::opaque]
    pub open spec fn spec_encode(v: SpecCPublishedFile_AddAppRelationship_Request) -> Seq<u8> {
        fields_bytes(Self::spec_fields(v))
    }

    /// What one record does to the message: a declared number sets or extends its
    /// field, any other number is left alone.
    pub open spec fn spec_apply(v: SpecCPublishedFile_AddAppRelationship_Request, f: SpecField) -> Result<SpecCPublishedFile_AddAppRelationship_Request, WireError> {
        match f.number {
            1 => match dec_u64(f.value) {
                Ok(x) => Ok(SpecCPublishedFile_AddAppRelationship_Request { publishedfileid: Some(x), ..v }),
                Err(e) => Err(e),
            },
            2 => match dec_u32(f.value) {
                Ok(x) => Ok(SpecCPublishedFile_AddAppRelationship_Request { appid: Some(x), ..v }),
                Err(e) => Err(e),
            },
            3 => match dec_u32(f.value) {
                Ok(x) => Ok(SpecCPublishedFile_AddAppRelationship_Request { relationship: Some(x), ..v }),
                Err(e) => Err(e),
            },
            _ => Ok(v),
        }
    }

    pub open spec fn apply_fn() -> spec_fn(SpecCPublishedFile_AddAppRelationship_Request, SpecField) -> Result<SpecCPublishedFile_AddAppRelationship_Request, WireError> {
        |v: SpecCPublishedFile_AddAppRelationship_Request, f: SpecField| Self::spec_apply(v, f)
    }

    /// The message `bytes` makes of `v`: its records applied in order, or the error
    /// that stops the reading.
    pub open spec fn spec_merge(v: SpecCPublishedFile_AddAppRelationship_Request, bytes: Seq<u8>) -> Result<SpecCPublishedFile_AddAppRelationship_Request, WireError> {
        let (w, stop) = merge_run(v, bytes, Self::apply_fn());
        match stop {
            None => Ok(w),
            Some(e) => Err(e),
        }
    }

    #[verifier::opaque]
    pub open spec fn spec_decode(bytes: Seq<u8>) -> Result<SpecCPublishedFile_AddAppRelationship_Request, WireError> {
        Self::spec_merge(Self::spec_default(), bytes)
    }

    /// This message with one record applied to it, or, when the record is refused,
    /// the message unchanged and the reason.
    fn applied(self, f: &Field) -> (r: Result<Self, (Self, WireError)>)
        ensures
            match Self::spec_apply(self@, f@) {
                Ok(v) => r matches Ok(m) && m@ == v,
                Err(e) => r matches Err((m, x)) && x == e && m@ == self@,
            },
    {
        match f.number {
            1 => match read_u64(&f.value) {
                Ok(x) => Ok(Self { publishedfileid: Some(x), ..self }),
                Err(e) => Err((self, e)),
            },
            2 => match read_u32(&f.value) {
                Ok(x) => Ok(Self { appid: Some(x), ..self }),
                Err(e) => Err((self, e)),
            },
            3 => match read_u32(&f.value) {
                Ok(x) => Ok(Self { relationship: Some(x), ..self }),
                Err(e) => Err((self, e)),
            },
            _ => Ok(self),
        }
    }

    /// Reads the records `bytes` holds into this message, in order. When a record does
    /// not parse or is refused, the reading stops there: the message keeps what the
    /// records before it gave, and the error is returned.
    pub fn merge(&mut self, bytes: &[u8]) -> (r: Result<(), WireError>)
        ensures
            final(self)@ == merge_run(old(self)@, bytes@, Self::apply_fn()).0,
            r == match merge_run(old(self)@, bytes@, Self::apply_fn()).1 {
                None => Ok::<(), WireError>(()),
                Some(e) => Err::<(), WireError>(e),
            },
    {
        let ghost total = merge_run(self@, bytes@, Self::apply_fn());
        let mut cur = Self::default();
        std::mem::swap(&mut cur, self);
        let mut pos: usize = 0;
        assert(bytes@.skip(0) =~= bytes@);
        while pos < bytes.len()
            invariant
                pos <= bytes@.len(),
                total == merge_run(old(self)@, bytes@, Self::apply_fn()),
                merge_run(cur@, bytes@.skip(pos as int), Self::apply_fn()) == total,
            decreases bytes@.len() - pos,
        {
            let ghost s = bytes@.skip(pos as int);
            proof {
                lemma_merge_run_step(cur@, s, Self::apply_fn());
                lemma_parse_field_len(s);
            }
            match read_field(bytes, pos) {
                Ok((f, end)) => {
                    assert(bytes@.skip(end as int) =~= s.skip((end - pos) as int));
                    match cur.applied(&f) {
                        Ok(m) => {
                            cur = m;
                        },
                        Err((m, e)) => {
                            *self = m;
                            return Err(e);
                        },
                    }
                    pos = end;
                },
                Err(e) => {
                    *self = cur;
                    return Err(e);
                },
            }
        }
        assert(bytes@.skip(pos as int) =~= Seq::<u8>::empty());
        proof {
            lemma_merge_run_empty(cur@, Self::apply_fn());
        }
        *self = cur;
        Ok(())
    }

    /// Decodes a message from its encoding.
    pub fn decode(bytes: &[u8]) -> (r: Result<Self, WireError>)
        ensures
            match Self::spec_decode(bytes@) {
                Ok(v) => r matches Ok(m) && m@ == v,
                Err(e) => r matches Err(x) && x == e,
            },
    {
        proof {
            reveal(CPublishedFile_AddAppRelationship_Request::spec_decode);
        }
        let mut m = Self::default();
        match m.merge(bytes) {
            Ok(()) => Ok(m),
            Err(e) => Err(e),
        }
    }

    /// The encoding of this message.
    pub fn encode_to_vec(&self) -> (r: Vec<u8>)
        ensures
            r@ == Self::spec_encode(self@),
    {
        let ghost v = self@;
        let mut out: Vec<u8> = Vec::new();
        let ghost p0 = Seq::<SpecField>::empty();
        put_opt_varint(&mut out, 1, self.publishedfileid);
        let ghost p1 = p0 + opt_u64(1, v.publishedfileid);
        proof {
            lemma_fields_bytes_concat(p0, opt_u64(1, v.publishedfileid));
        }
        put_opt_u32(&mut out, 2, self.appid);
        let ghost p2 = p1 + opt_u32(2, v.appid);
        proof {
            lemma_fields_bytes_concat(p1, opt_u32(2, v.appid));
        }
        put_opt_u32(&mut out, 3, self.relationship);
        let ghost p3 = p2 + opt_u32(3, v.relationship);
        proof {
            lemma_fields_bytes_concat(p2, opt_u32(3, v.relationship));
        }
        proof {
            reveal(CPublishedFile_AddAppRelationship_Request::spec_encode);
        }
        assert(p3 == Self::spec_fields(v));
        out
    }

    /// Appends the encoding of this message to `out`.
    pub fn encode_raw(&self, out: &mut Vec<u8>)
        ensures
            final(out)@ == old(out)@ + Self::spec_encode(self@),
    {
        let mut b = self.encode_to_vec();
        out.append(&mut b);
    }

    /// The first `k` fields of `v`, the others as a fresh message has them.
    #[verifier::opaque]
    pub open spec fn spec_prefix(v: SpecCPublishedFile_AddAppRelationship_Request, k: int) -> SpecCPublishedFile_AddAppRelationship_Request {
        SpecCPublishedFile_AddAppRelationship_Request {
            publishedfileid: if 1 <= k { v.publishedfileid } else { None },
            appid: if 2 <= k { v.appid } else { None },
            relationship: if 3 <= k { v.relationship } else { None },
        }
    }

    /// Reading field 1 back, after the fields before it.
    proof fn lemma_field_publishedfileid(v: SpecCPublishedFile_AddAppRelationship_Request)
        ensures
            fold_fields(Self::spec_prefix(v, 0), opt_u64(1, v.publishedfileid), Self::apply_fn())
                == Ok::<SpecCPublishedFile_AddAppRelationship_Request, WireError>(Self::spec_prefix(v, 1)),
    {
        reveal(CPublishedFile_AddAppRelationship_Request::spec_prefix);
        reveal(opt_u64);
        let apply = Self::apply_fn();
        let s = Self::spec_prefix(v, 0);
        lemma_fold_opt(s, 1, match v.publishedfileid { Some(x) => Some(enc_u64(x)), None => None }, apply);
        if let Some(x) = v.publishedfileid {
            lemma_u64_roundtrip(x);
        }
        assert(SpecCPublishedFile_AddAppRelationship_Request { publishedfileid: v.publishedfileid, ..s } == Self::spec_prefix(v, 1));
    }

    /// Reading field 2 back, after the fields before it.
    proof fn lemma_field_appid(v: SpecCPublishedFile_AddAppRelationship_Request)
        ensures
            fold_fields(Self::spec_prefix(v, 1), opt_u32(2, v.appid), Self::apply_fn())
                == Ok::<SpecCPublishedFile_AddAppRelationship_Request, WireError>(Self::spec_prefix(v, 2)),
    {
        reveal(CPublishedFile_AddAppRelationship_Request::spec_prefix);
        reveal(opt_u32);
        let apply = Self::apply_fn();
        let s = Self::spec_prefix(v, 1);
        lemma_fold_opt(s, 2, match v.appid { Some(x) => Some(enc_u32(x)), None => None }, apply);
        if let Some(x) = v.appid {
            lemma_u32_roundtrip(x);
        }
        assert(SpecCPublishedFile_AddAppRelationship_Request { appid: v.appid, ..s } == Self::spec_prefix(v, 2));
    }

    /// Reading field 3 back, after the fields before it.
    proof fn lemma_field_relationship(v: SpecCPublishedFile_AddAppRelationship_Request)
        ensures
            fold_fields(Self::spec_prefix(v, 2), opt_u32(3, v.relationship), Self::apply_fn())
                == Ok::<SpecCPublishedFile_AddAppRelationship_Request, WireError>(Self::spec_prefix(v, 3)),
    {
        reveal(CPublishedFile_AddAppRelationship_Request::spec_prefix);
        reveal(opt_u32);
        let apply = Self::apply_fn();
        let s = Self::spec_prefix(v, 2);
        lemma_fold_opt(s, 3, match v.relationship { Some(x) => Some(enc_u32(x)), None => None }, apply);
        if let Some(x) = v.relationship {
            lemma_u32_roundtrip(x);
        }
        assert(SpecCPublishedFile_AddAppRelationship_Request { relationship: v.relationship, ..s } == Self::spec_prefix(v, 3));
    }

    /// Whether this message declares field number `n`.
    pub open spec fn declares(n: u32) -> bool {
        n == 1 || n == 2 || n == 3
    }

    /// A record with a number this message does not declare is passed over: well-formed
    /// bytes decode to the same message with such a record after them as without it.
    pub proof fn lemma_unknown_field(bytes: Seq<u8>, f: SpecField)
        requires
            parse_fields(bytes) is Ok,
            field_wf(f),
            !Self::declares(f.number),
        ensures
            Self::spec_decode(bytes + field_bytes(f)) == Self::spec_decode(bytes),
    {
        reveal(CPublishedFile_AddAppRelationship_Request::spec_decode);
        lemma_parse_fields_append(bytes, f);
        let fs = parse_fields(bytes).unwrap();
        let apply = Self::apply_fn();
        lemma_fold_concat(Self::spec_default(), fs, seq![f], apply);
        assert(fs.push(f) =~= fs + seq![f]);
        if let Ok(w) = fold_fields(Self::spec_default(), fs, apply) {
            lemma_fold_single(w, f, apply);
        }
        lemma_merge_run_fold(Self::spec_default(), bytes, apply);
        lemma_merge_run_fold(Self::spec_default(), bytes + field_bytes(f), apply);
    }

    /// Decoding the encoding of a message gives the message back.
    pub proof fn lemma_decode_encode(v: SpecCPublishedFile_AddAppRelationship_Request)
        requires
            Self::spec_encode(v).len() <= u64::MAX,
        ensures
            Self::spec_decode(Self::spec_encode(v)) == Ok::<SpecCPublishedFile_AddAppRelationship_Request, WireError>(v),
    {
        let apply = Self::apply_fn();
        let d = Self::spec_default();
        let p0 = Seq::<SpecField>::empty();
        let l1 = opt_u64(1, v.publishedfileid);
        let p1 = p0 + l1;
        let l2 = opt_u32(2, v.appid);
        let p2 = p1 + l2;
        let l3 = opt_u32(3, v.relationship);
        let p3 = p2 + l3;
        assert(parse_fields(Self::spec_encode(v)) == Ok::<Seq<SpecField>, WireError>(p3)) by {
            reveal(CPublishedFile_AddAppRelationship_Request::spec_encode);
            assert(numbers_ok(p0) && fields_wf(p0)) by {
                reveal(numbers_ok);
                reveal(fields_wf);
            }
            lemma_opt_u64_numbered(1, v.publishedfileid);
            lemma_fields_wf_concat(p0, l1);
            lemma_opt_u32_numbered(2, v.appid);
            lemma_fields_wf_concat(p1, l2);
            lemma_opt_u32_numbered(3, v.relationship);
            lemma_fields_wf_concat(p2, l3);
            assert(p3 == Self::spec_fields(v));
            lemma_fields_wf_from_len(p3);
            lemma_fields_roundtrip(p3);
        }
        assert(Self::spec_prefix(v, 0) == d) by {
            reveal(CPublishedFile_AddAppRelationship_Request::spec_prefix);
        }
        lemma_fold_empty(d, apply);
        lemma_fold_concat(d, p0, l1, apply);
        Self::lemma_field_publishedfileid(v);
        lemma_fold_concat(d, p1, l2, apply);
        Self::lemma_field_appid(v);
        lemma_fold_concat(d, p2, l3, apply);
        Self::lemma_field_relationship(v);
        assert(Self::spec_prefix(v, 3) == v) by {
            reveal(CPublishedFile_AddAppRelationship_Request::spec_prefix);
        }
        lemma_merge_run_fold(d, Self::spec_encode(v), apply);
        assert(Self::spec_decode(Self::spec_encode(v)) == Ok::<SpecCPublishedFile_AddAppRelationship_Request, WireError>(v)) by {
            reveal(CPublishedFile_AddAppRelationship_Request::spec_decode);
        }
    }
}

/// `CPublishedFile_AddAppRelationship_Response`, as Valve's schema declares it.
#[derive(Debug, Clone, PartialEq)]
pub struct CPublishedFile_AddAppRelationship_Response {}

/// What a `CPublishedFile_AddAppRelationship_Response` holds, as mathematical values.
#[verifier::ext_equal]
pub struct SpecCPublishedFile_AddAppRelationship_Response {}

impl View for CPublishedFile_AddAppRelationship_Response {
    type V = SpecCPublishedFile_AddAppRelationship_Response;

    open spec fn view(&self) -> SpecCPublishedFile_AddAppRelationship_Response {
        SpecCPublishedFile_AddAppRelationship_Response {}
    }
}

impl Default for CPublishedFile_AddAppRelationship_Response {
    fn default() -> (r: Self)
        ensures
            r@ == CPublishedFile_AddAppRelationship_Response::spec_default(),
    {
        CPublishedFile_AddAppRelationship_Response {}
    }
}

impl CPublishedFile_AddAppRelationship_Response {
    pub open spec fn spec_default() -> SpecCPublishedFile_AddAppRelationship_Response {
        SpecCPublishedFile_AddAppRelationship_Response {}
    }

    /// The records a `CPublishedFile_AddAppRelationship_Response` is written as, in field order.
    pub open spec fn spec_fields(v: SpecCPublishedFile_AddAppRelationship_Response) -> Seq<SpecField> {
        Seq::<SpecField>::empty()
    }

    #[verifier::opaque]
    pub open spec fn spec_encode(v: SpecCPublishedFile_AddAppRelationship_Response) -> Seq<u8> {
        fields_bytes(Self::spec_fields(v))
    }

    /// What one record does to the message: a declared number sets or extends its
    /// field, any other number is left alone.
    pub open spec fn spec_apply(v: SpecCPublishedFile_AddAppRelationship_Response, f: SpecField) -> Result<SpecCPublishedFile_AddAppRelationship_Response, WireError> {
        match f.number {
            _ => Ok(v),
        }
    }

    pub open spec fn apply_fn() -> spec_fn(SpecCPublishedFile_AddAppRelationship_Response, SpecField) -> Result<SpecCPublishedFile_AddAppRelationship_Response, WireError> {
        |v: SpecCPublishedFile_AddAppRelationship_Response, f: SpecField| Self::spec_apply(v, f)
    }

    /// The message `bytes` makes of `v`: its records applied in order, or the error
    /// that stops the reading.
    pub open spec fn spec_merge(v: SpecCPublishedFile_AddAppRelationship_Response, bytes: Seq<u8>) -> Result<SpecCPublishedFile_AddAppRelationship_Response, WireError> {
        let (w, stop) = merge_run(v, bytes, Self::apply_fn());
        match stop {
            None => Ok(w),
            Some(e) => Err(e),
        }
    }

    #[verifier::opaque]
    pub open spec fn spec_decode(bytes: Seq<u8>) -> Result<SpecCPublishedFile_AddAppRelationship_Response, WireError> {
        Self::spec_merge(Self::spec_default(), bytes)
    }

    /// This message with one record applied to it, or, when the record is refused,
    /// the message unchanged and the reason.
    fn applied(self, f: &Field) -> (r: Result<Self, (Self, WireError)>)
        ensures
            match Self::spec_apply(self@, f@) {
                Ok(v) => r matches Ok(m) && m@ == v,
                Err(e) => r matches Err((m, x)) && x == e && m@ == self@,
            },
    {
        match f.number {
            _ => Ok(self),
        }
    }

    /// Reads the records `bytes` holds into this message, in order. When a record does
    /// not parse or is refused, the reading stops there: the message keeps what the
    /// records before it gave, and the error is returned.
    pub fn merge(&mut self, bytes: &[u8]) -> (r: Result<(), WireError>)
        ensures
            final(self)@ == merge_run(old(self)@, bytes@, Self::apply_fn()).0,
            r == match merge_run(old(self)@, bytes@, Self::apply_fn()).1 {
                None => Ok::<(), WireError>(()),
                Some(e) => Err::<(), WireError>(e),
            },
    {
        let ghost total = merge_run(self@, bytes@, Self::apply_fn());
        let mut cur = Self::default();
        std::mem::swap(&mut cur, self);
        let mut pos: usize = 0;
        assert(bytes@.skip(0) =~= bytes@);
        while pos < bytes.len()
            invariant
                pos <= bytes@.len(),
                total == merge_run(old(self)@, bytes@, Self::apply_fn()),
                merge_run(cur@, bytes@.skip(pos as int), Self::apply_fn()) == total,
            decreases bytes@.len() - pos,
        {
            let ghost s = bytes@.skip(pos as int);
            proof {
                lemma_merge_run_step(cur@, s, Self::apply_fn());
                lemma_parse_field_len(s);
            }
            match read_field(bytes, pos) {
                Ok((f, end)) => {
                    assert(bytes@.skip(end as int) =~= s.skip((end - pos) as int));
                    match cur.applied(&f) {
                        Ok(m) => {
                            cur = m;
                        },
                        Err((m, e)) => {
                            *self = m;
                            return Err(e);
                        },
                    }
                    pos = end;
                },
                Err(e) => {
                    *self = cur;
                    return Err(e);
                },
            }
        }
        assert(bytes@.skip(pos as int) =~= Seq::<u8>::empty());
        proof {
            lemma_merge_run_empty(cur@, Self::apply_fn());
        }
        *self = cur;
        Ok(())
    }

    /// Decodes a message from its encoding.
    pub fn decode(bytes: &[u8]) -> (r: Result<Self, WireError>)
        ensures
            match Self::spec_decode(bytes@) {
                Ok(v) => r matches Ok(m) && m@ == v,
                Err(e) => r matches Err(x) && x == e,
            },
    {
        proof {
            reveal(CPublishedFile_AddAppRelationship_Response::spec_decode);
        }
        let mut m = Self::default();
        match m.merge(bytes) {
            Ok(()) => Ok(m),
            Err(e) => Err(e),
        }
    }

    /// The encoding of this message.
    pub fn encode_to_vec(&self) -> (r: Vec<u8>)
        ensures
            r@ == Self::spec_encode(self@),
    {
        let ghost v = self@;
        let mut out: Vec<u8> = Vec::new();
        let ghost p0 = Seq::<SpecField>::empty();
        proof {
            reveal(CPublishedFile_AddAppRelationship_Response::spec_encode);
        }
        assert(p0 == Self::spec_fields(v));
        assert(out@ =~= fields_bytes(p0));
        out
    }

    /// Appends the encoding of this message to `out`.
    pub fn encode_raw(&self, out: &mut Vec<u8>)
        ensures
            final(out)@ == old(out)@ + Self::spec_encode(self@),
    {
        let mut b = self.encode_to_vec();
        out.append(&mut b);
    }

    /// The first `k` fields of `v`, the others as a fresh message has them.
    #[verifier::opaque]
    pub open spec fn spec_prefix(v: SpecCPublishedFile_AddAppRelationship_Response, k: int) -> SpecCPublishedFile_AddAppRelationship_Response {
        SpecCPublishedFile_AddAppRelationship_Response {}
    }

    /// Whether this message declares field number `n`.
    pub open spec fn declares(n: u32) -> bool {
        false
    }

    /// A record with a number this message does not declare is passed over: well-formed
    /// bytes decode to the same message with such a record after them as without it.
    pub proof fn lemma_unknown_field(bytes: Seq<u8>, f: SpecField)
        requires
            parse_fields(bytes) is Ok,
            field_wf(f),
            !Self::declares(f.number),
        ensures
            Self::spec_decode(bytes + field_bytes(f)) == Self::spec_decode(bytes),
    {
        reveal(CPublishedFile_AddAppRelationship_Response::spec_decode);
        lemma_parse_fields_append(bytes, f);
        let fs = parse_fields(bytes).unwrap();
        let apply = Self::apply_fn();
        lemma_fold_concat(Self::spec_default(), fs, seq![f], apply);
        assert(fs.push(f) =~= fs + seq![f]);
        if let Ok(w) = fold_fields(Self::spec_default(), fs, apply) {
            lemma_fold_single(w, f, apply);
        }
        lemma_merge_run_fold(Self::spec_default(), bytes, apply);
        lemma_merge_run_fold(Self::spec_default(), bytes + field_bytes(f), apply);
    }

    /// Decoding the encoding of a message gives the message back.
    pub proof fn lemma_decode_encode(v: SpecCPublishedFile_AddAppRelationship_Response)
        requires
            Self::spec_encode(v).len() <= u64::MAX,
        ensures
            Self::spec_decode(Self::spec_encode(v)) == Ok::<SpecCPublishedFile_AddAppRelationship_Response, WireError>(v),
    {
        let apply = Self::apply_fn();
        let d = Self::spec_default();
        let p0 = Seq::<SpecField>::empty();
        assert(parse_fields(Self::spec_encode(v)) == Ok::<Seq<SpecField>, WireError>(p0)) by {
            reveal(CPublishedFile_AddAppRelationship_Response::spec_encode);
            assert(numbers_ok(p0) && fields_wf(p0)) by {
                reveal(numbers_ok);
                reveal(fields_wf);
            }
            assert(p0 == Self::spec_fields(v));
            lemma_fields_wf_from_len(p0);
            lemma_fields_roundtrip(p0);
        }
        assert(Self::spec_prefix(v, 0) == d) by {
            reveal(CPublishedFile_AddAppRelationship_Response::spec_prefix);
        }
        lemma_fold_empty(d, apply);
        assert(Self::spec_prefix(v, 0) == v) by {
            reveal(CPublishedFile_AddAppRelationship_Response::spec_prefix);
        }
        lemma_merge_run_fold(d, Self::spec_encode(v), apply);
        assert(Self::spec_decode(Self::spec_encode(v)) == Ok::<SpecCPublishedFile_AddAppRelationship_Response, WireError>(v)) by {
            reveal(CPublishedFile_AddAppRelationship_Response::spec_decode);
        }
    }
}

/// `CPublishedFile_RemoveAppRelationship_Request`, as Valve's schema declares it.
#[derive(Debug, Clone, PartialEq)]
pub struct CPublishedFile_RemoveAppRelationship_Request {
    /// Field 1.
    pub publishedfileid: Option<u64>,
    /// Field 2.
    pub appid: Option<u32>,
    /// Field 3.
    pub relationship: Option<u32>,
}

/// What a `CPublishedFile_RemoveAppRelationship_Request` holds, as mathematical values.
#[verifier::ext_equal]
pub struct SpecCPublishedFile_RemoveAppRelationship_Request {
    pub publishedfileid: Option<u64>,
    pub appid: Option<u32>,
    pub relationship: Option<u32>,
}

impl View for CPublishedFile_RemoveAppRelationship_Request {
    type V = SpecCPublishedFile_RemoveAppRelationship_Request;

    open spec fn view(&self) -> SpecCPublishedFile_RemoveAppRelationship_Request {
        SpecCPublishedFile_RemoveAppRelationship_Request {
            publishedfileid: self.publishedfileid,
            appid: self.appid,
            relationship: self.relationship,
        }
    }
}

impl Default for CPublishedFile_RemoveAppRelationship_Request {
    fn default() -> (r: Self)
        ensures
            r@ == CPublishedFile_RemoveAppRelationship_Request::spec_default(),
    {
        CPublishedFile_RemoveAppRelationship_Request {
            publishedfileid: None,
            appid: None,
            relationship: None,
        }
    }
}

impl CPublishedFile_RemoveAppRelationship_Request {
    pub open spec fn spec_default() -> SpecCPublishedFile_RemoveAppRelationship_Request {
        SpecCPublishedFile_RemoveAppRelationship_Request {
            publishedfileid: None,
            appid: None,
            relationship: None,
        }
    }

    /// The records a `CPublishedFile_RemoveAppRelationship_Request` is written as, in field order.
    pub open spec fn spec_fields(v: SpecCPublishedFile_RemoveAppRelationship_Request) -> Seq<SpecField> {
        Seq::<SpecField>::empty()
            + opt_u64(1, v.publishedfileid)
            + opt_u32(2, v.appid)
            + opt_u32(3, v.relationship)
    }

    #[verifier::opaque]
    pub open spec fn spec_encode(v: SpecCPublishedFile_RemoveAppRelationship_Request) -> Seq<u8> {
        fields_bytes(Self::spec_fields(v))
    }

    /// What one record does to the message: a declared number sets or extends its
    /// field, any other number is left alone.
    pub open spec fn spec_apply(v: SpecCPublishedFile_RemoveAppRelationship_Request, f: SpecField) -> Result<SpecCPublishedFile_RemoveAppRelationship_Request, WireError> {
        match f.number {
            1 => match dec_u64(f.value) {
                Ok(x) => Ok(SpecCPublishedFile_RemoveAppRelationship_Request { publishedfileid: Some(x), ..v }),
                Err(e) => Err(e),
            },
            2 => match dec_u32(f.value) {
                Ok(x) => Ok(SpecCPublishedFile_RemoveAppRelationship_Request { appid: Some(x), ..v }),
                Err(e) => Err(e),
            },
            3 => match dec_u32(f.value) {
                Ok(x) => Ok(SpecCPublishedFile_RemoveAppRelationship_Request { relationship: Some(x), ..v }),
                Err(e) => Err(e),
            },
            _ => Ok(v),
        }
    }

    pub open spec fn apply_fn() -> spec_fn(SpecCPublishedFile_RemoveAppRelationship_Request, SpecField) -> Result<SpecCPublishedFile_RemoveAppRelationship_Request, WireError> {
        |v: SpecCPublishedFile_RemoveAppRelationship_Request, f: SpecField| Self::spec_apply(v, f)
    }

    /// The message `bytes` makes of `v`: its records applied in order, or the error
    /// that stops the reading.
    pub open spec fn spec_merge(v: SpecCPublishedFile_RemoveAppRelationship_Request, bytes: Seq<u8>) -> Result<SpecCPublishedFile_RemoveAppRelationship_Request, WireError> {
        let (w, stop) = merge_run(v, bytes, Self::apply_fn());
        match stop {
            None => Ok(w),
            Some(e) => Err(e),
        }
    }

    #[verifier::opaque]
    pub open spec fn spec_decode(bytes: Seq<u8>) -> Result<SpecCPublishedFile_RemoveAppRelationship_Request, WireError> {
        Self::spec_merge(Self::spec_default(), bytes)
    }

    /// This message with one record applied to it, or, when the record is refused,
    /// the message unchanged and the reason.
    fn applied(self, f: &Field) -> (r: Result<Self, (Self, WireError)>)
        ensures
            match Self::spec_apply(self@, f@) {
                Ok(v) => r matches Ok(m) && m@ == v,
                Err(e) => r matches Err((m, x)) && x == e && m@ == self@,
            },
    {
        match f.number {
            1 => match read_u64(&f.value) {
                Ok(x) => Ok(Self { publishedfileid: Some(x), ..self }),
                Err(e) => Err((self, e)),
            },
            2 => match read_u32(&f.value) {
                Ok(x) => Ok(Self { appid: Some(x), ..self }),
                Err(e) => Err((self, e)),
            },
            3 => match read_u32(&f.value) {
                Ok(x) => Ok(Self { relationship: Some(x), ..self }),
                Err(e) => Err((self, e)),
            },
            _ => Ok(self),
        }
    }

    /// Reads the records `bytes` holds into this message, in order. When a record does
    /// not parse or is refused, the reading stops there: the message keeps what the
    /// records before it gave, and the error is returned.
    pub fn merge(&mut self, bytes: &[u8]) -> (r: Result<(), WireError>)
        ensures
            final(self)@ == merge_run(old(self)@, bytes@, Self::apply_fn()).0,
            r == match merge_run(old(self)@, bytes@, Self::apply_fn()).1 {
                None => Ok::<(), WireError>(()),
                Some(e) => Err::<(), WireError>(e),
            },
    {
        let ghost total = merge_run(self@, bytes@, Self::apply_fn());
        let mut cur = Self::default();
        std::mem::swap(&mut cur, self);
        let mut pos: usize = 0;
        assert(bytes@.skip(0) =~= bytes@);
        while pos < bytes.len()
            invariant
                pos <= bytes@.len(),
                total == merge_run(old(self)@, bytes@, Self::apply_fn()),
                merge_run(cur@, bytes@.skip(pos as int), Self::apply_fn()) == total,
            decreases bytes@.len() - pos,
        {
            let ghost s = bytes@.skip(pos as int);
            proof {
                lemma_merge_run_step(cur@, s, Self::apply_fn());
                lemma_parse_field_len(s);
            }
            match read_field(bytes, pos) {
                Ok((f, end)) => {
                    assert(bytes@.skip(end as int) =~= s.skip((end - pos) as int));
                    match cur.applied(&f) {
                        Ok(m) => {
                            cur = m;
                        },
                        Err((m, e)) => {
                            *self = m;
                            return Err(e);
                        },
                    }
                    pos = end;
                },
                Err(e) => {
                    *self = cur;
                    return Err(e);
                },
            }
        }
        assert(bytes@.skip(pos as int) =~= Seq::<u8>::empty());
        proof {
            lemma_merge_run_empty(cur@, Self::apply_fn());
        }
        *self = cur;
        Ok(())
    }

    /// Decodes a message from its encoding.
    pub fn decode(bytes: &[u8]) -> (r: Result<Self, WireError>)
        ensures
            match Self::spec_decode(bytes@) {
                Ok(v) => r matches Ok(m) && m@ == v,
                Err(e) => r matches Err(x) && x == e,
            },
    {
        proof {
            reveal(CPublishedFile_RemoveAppRelationship_Request::spec_decode);
        }
        let mut m = Self::default();
        match m.merge(bytes) {
            Ok(()) => Ok(m),
            Err(e) => Err(e),
        }
    }

    /// The encoding of this message.
    pub fn encode_to_vec(&self) -> (r: Vec<u8>)
        ensures
            r@ == Self::spec_encode(self@),
    {
        let ghost v = self@;
        let mut out: Vec<u8> = Vec::new();
        let ghost p0 = Seq::<SpecField>::empty();
        put_opt_varint(&mut out, 1, self.publishedfileid);
        let ghost p1 = p0 + opt_u64(1, v.publishedfileid);
        proof {
            lemma_fields_bytes_concat(p0, opt_u64(1, v.publishedfileid));
        }
        put_opt_u32(&mut out, 2, self.appid);
        let ghost p2 = p1 + opt_u32(2, v.appid);
        proof {
            lemma_fields_bytes_concat(p1, opt_u32(2, v.appid));
        }
        put_opt_u32(&mut out, 3, self.relationship);
        let ghost p3 = p2 + opt_u32(3, v.relationship);
        proof {
            lemma_fields_bytes_concat(p2, opt_u32(3, v.relationship));
        }
        proof {
            reveal(CPublishedFile_RemoveAppRelationship_Request::spec_encode);
        }
        assert(p3 == Self::spec_fields(v));
        out
    }

    /// Appends the encoding of this message to `out`.
    pub fn encode_raw(&self, out: &mut Vec<u8>)
        ensures
            final(out)@ == old(out)@ + Self::spec_encode(self@),
    {
        let mut b = self.encode_to_vec();
        out.append(&mut b);
    }

    /// The first `k` fields of `v`, the others as a fresh message has them.
    #[verifier::opaque]
    pub open spec fn spec_prefix(v: SpecCPublishedFile_RemoveAppRelationship_Request, k: int) -> SpecCPublishedFile_RemoveAppRelationship_Request {
        SpecCPublishedFile_RemoveAppRelationship_Request {
            publishedfileid: if 1 <= k { v.publishedfileid } else { None },
            appid: if 2 <= k { v.appid } else { None },
            relationship: if 3 <= k { v.relationship } else { None },
        }
    }

    /// Reading field 1 back, after the fields before it.
    proof fn lemma_field_publishedfileid(v: SpecCPublishedFile_RemoveAppRelationship_Request)
        ensures
            fold_fields(Self::spec_prefix(v, 0), opt_u64(1, v.publishedfileid), Self::apply_fn())
                == Ok::<SpecCPublishedFile_RemoveAppRelationship_Request, WireError>(Self::spec_prefix(v, 1)),
    {
        reveal(CPublishedFile_RemoveAppRelationship_Request::spec_prefix);
        reveal(opt_u64);
        let apply = Self::apply_fn();
        let s = Self::spec_prefix(v, 0);
        lemma_fold_opt(s, 1, match v.publishedfileid { Some(x) => Some(enc_u64(x)), None => None }, apply);
        if let Some(x) = v.publishedfileid {
            lemma_u64_roundtrip(x);
        }
        assert(SpecCPublishedFile_RemoveAppRelationship_Request { publishedfileid: v.publishedfileid, ..s } == Self::spec_prefix(v, 1));
    }

    /// Reading field 2 back, after the fields before it.
    proof fn lemma_field_appid(v: SpecCPublishedFile_RemoveAppRelationship_Request)
        ensures
            fold_fields(Self::spec_prefix(v, 1), opt_u32(2, v.appid), Self::apply_fn())
                == Ok::<SpecCPublishedFile_RemoveAppRelationship_Request, WireError>(Self::spec_prefix(v, 2)),
    {
        reveal(CPublishedFile_RemoveAppRelationship_Request::spec_prefix);
        reveal(opt_u32);
        let apply = Self::apply_fn();
        let s = Self::spec_prefix(v, 1);
        lemma_fold_opt(s, 2, match v.appid { Some(x) => Some(enc_u32(x)), None => None }, apply);
        if let Some(x) = v.appid {
            lemma_u32_roundtrip(x);
        }
        assert(SpecCPublishedFile_RemoveAppRelationship_Request { appid: v.appid, ..s } == Self::spec_prefix(v, 2));
    }

    /// Reading field 3 back, after the fields before it.
    proof fn lemma_field_relationship(v: SpecCPublishedFile_RemoveAppRelationship_Request)
        ensures
            fold_fields(Self::spec_prefix(v, 2), opt_u32(3, v.relationship), Self::apply_fn())
                == Ok::<SpecCPublishedFile_RemoveAppRelationship_Request, WireError>(Self::spec_prefix(v, 3)),
    {
        reveal(CPublishedFile_RemoveAppRelationship_Request::spec_prefix);
        reveal(opt_u32);
        let apply = Self::apply_fn();
        let s = Self::spec_prefix(v, 2);
        lemma_fold_opt(s, 3, match v.relationship { Some(x) => Some(enc_u32(x)), None => None }, apply);
        if let Some(x) = v.relationship {
            lemma_u32_roundtrip(x);
        }
        assert(SpecCPublishedFile_RemoveAppRelationship_Request { relationship: v.relationship, ..s } == Self::spec_prefix(v, 3));
    }

    /// Whether this message declares field number `n`.
    pub open spec fn declares(n: u32) -> bool {
        n == 1 || n == 2 || n == 3
    }

    /// A record with a number this message does not declare is passed over: well-formed
    /// bytes decode to the same message with such a record after them as without it.
    pub proof fn lemma_unknown_field(bytes: Seq<u8>, f: SpecField)
        requires
            parse_fields(bytes) is Ok,
            field_wf(f),
            !Self::declares(f.number),
        ensures
            Self::spec_decode(bytes + field_bytes(f)) == Self::spec_decode(bytes),
    {
        reveal(CPublishedFile_RemoveAppRelationship_Request::spec_decode);
        lemma_parse_fields_append(bytes, f);
        let fs = parse_fields(bytes).unwrap();
        let apply = Self::apply_fn();
        lemma_fold_concat(Self::spec_default(), fs, seq![f], apply);
        assert(fs.push(f) =~= fs + seq![f]);
        if let Ok(w) = fold_fields(Self::spec_default(), fs, apply) {
            lemma_fold_single(w, f, apply);
        }
        lemma_merge_run_fold(Self::spec_default(), bytes, apply);
        lemma_merge_run_fold(Self::spec_default(), bytes + field_bytes(f), apply);
    }

    /// Decoding the encoding of a message gives the message back.
    pub proof fn lemma_decode_encode(v: SpecCPublishedFile_RemoveAppRelationship_Request)
        requires
            Self::spec_encode(v).len() <= u64::MAX,
        ensures
            Self::spec_decode(Self::spec_encode(v)) == Ok::<SpecCPublishedFile_RemoveAppRelationship_Request, WireError>(v),
    {
        let apply = Self::apply_fn();
        let d = Self::spec_default();
        let p0 = Seq::<SpecField>::empty();
        let l1 = opt_u64(1, v.publishedfileid);
        let p1 = p0 + l1;
        let l2 = opt_u32(2, v.appid);
        let p2 = p1 + l2;
        let l3 = opt_u32(3, v.relationship);
        let p3 = p2 + l3;
        assert(parse_fields(Self::spec_encode(v)) == Ok::<Seq<SpecField>, WireError>(p3)) by {
            reveal(CPublishedFile_RemoveAppRelationship_Request::spec_encode);
            assert(numbers_ok(p0) && fields_wf(p0)) by {
                reveal(numbers_ok);
                reveal(fields_wf);
            }
            lemma_opt_u64_numbered(1, v.publishedfileid);
            lemma_fields_wf_concat(p0, l1);
            lemma_opt_u32_numbered(2, v.appid);
            lemma_fields_wf_concat(p1, l2);
            lemma_opt_u32_numbered(3, v.relationship);
            lemma_fields_wf_concat(p2, l3);
            assert(p3 == Self::spec_fields(v));
            lemma_fields_wf_from_len(p3);
            lemma_fields_roundtrip(p3);
        }
        assert(Self::spec_prefix(v, 0) == d) by {
            reveal(CPublishedFile_RemoveAppRelationship_Request::spec_prefix);
        }
        lemma_fold_empty(d, apply);
        lemma_fold_concat(d, p0, l1, apply);
        Self::lemma_field_publishedfileid(v);
        lemma_fold_concat(d, p1, l2, apply);
        Self::lemma_field_appid(v);
        lemma_fold_concat(d, p2, l3, apply);
        Self::lemma_field_relationship(v);
        assert(Self::spec_prefix(v, 3) == v) by {
            reveal(CPublishedFile_RemoveAppRelationship_Request::spec_prefix);
        }
        lemma_merge_run_fold(d, Self::spec_encode(v), apply);
        assert(Self::spec_decode(Self::spec_encode(v)) == Ok::<SpecCPublishedFile_RemoveAppRelationship_Request, WireError>(v)) by {
            reveal(CPublishedFile_RemoveAppRelationship_Request::spec_decode);
        }
    }
}

/// `CPublishedFile_RemoveAppRelationship_Response`, as Valve's schema declares it.
#[derive(Debug, Clone, PartialEq)]
pub struct CPublishedFile_RemoveAppRelationship_Response {}

/// What a `CPublishedFile_RemoveAppRelationship_Response` holds, as mathematical values.
#[verifier::ext_equal]
pub struct SpecCPublishedFile_RemoveAppRelationship_Response {}

impl View for CPublishedFile_RemoveAppRelationship_Response {
    type V = SpecCPublishedFile_RemoveAppRelationship_Response;

    open spec fn view(&self) -> SpecCPublishedFile_RemoveAppRelationship_Response {
        SpecCPublishedFile_RemoveAppRelationship_Response {}
    }
}

impl Default for CPublishedFile_RemoveAppRelationship_Response {
    fn default() -> (r: Self)
        ensures
            r@ == CPublishedFile_RemoveAppRelationship_Response::spec_default(),
    {
        CPublishedFile_RemoveAppRelationship_Response {}
    }
}

impl CPublishedFile_RemoveAppRelationship_Response {
    pub open spec fn spec_default() -> SpecCPublishedFile_RemoveAppRelationship_Response {
        SpecCPublishedFile_RemoveAppRelationship_Response {}
    }

    /// The records a `CPublishedFile_RemoveAppRelationship_Response` is written as, in field order.
    pub open spec fn spec_fields(v: SpecCPublishedFile_RemoveAppRelationship_Response) -> Seq<SpecField> {
        Seq::<SpecField>::empty()
    }

    #[verifier::opaque]
    pub open spec fn spec_encode(v: SpecCPublishedFile_RemoveAppRelationship_Response) -> Seq<u8> {
        fields_bytes(Self::spec_fields(v))
    }

    /// What one record does to the message: a declared number sets or extends its
    /// field, any other number is left alone.
    pub open spec fn spec_apply(v: SpecCPublishedFile_RemoveAppRelationship_Response, f: SpecField) -> Result<SpecCPublishedFile_RemoveAppRelationship_Response, WireError> {
        match f.number {
            _ => Ok(v),
        }
    }

    pub open spec fn apply_fn() -> spec_fn(SpecCPublishedFile_RemoveAppRelationship_Response, SpecField) -> Result<SpecCPublishedFile_RemoveAppRelationship_Response, WireError> {
        |v: SpecCPublishedFile_RemoveAppRelationship_Response, f: SpecField| Self::spec_apply(v, f)
    }

    /// The message `bytes` makes of `v`: its records applied in order, or the error
    /// that stops the reading.
    pub open spec fn spec_merge(v: SpecCPublishedFile_RemoveAppRelationship_Response, bytes: Seq<u8>) -> Result<SpecCPublishedFile_RemoveAppRelationship_Response, WireError> {
        let (w, stop) = merge_run(v, bytes, Self::apply_fn());
        match stop {
            None => Ok(w),
            Some(e) => Err(e),
        }
    }

    #[verifier::opaque]
    pub open spec fn spec_decode(bytes: Seq<u8>) -> Result<SpecCPublishedFile_RemoveAppRelationship_Response, WireError> {
        Self::spec_merge(Self::spec_default(), bytes)
    }

    /// This message with one record applied to it, or, when the record is refused,
    /// the message unchanged and the reason.
    fn applied(self, f: &Field) -> (r: Result<Self, (Self, WireError)>)
        ensures
            match Self::spec_apply(self@, f@) {
                Ok(v) => r matches Ok(m) && m@ == v,
                Err(e) => r matches Err((m, x)) && x == e && m@ == self@,
            },
    {
        match f.number {
            _ => Ok(self),
        }
    }

    /// Reads the records `bytes` holds into this message, in order. When a record does
    /// not parse or is refused, the reading stops there: the message keeps what the
    /// records before it gave, and the error is returned.
    pub fn merge(&mut self, bytes: &[u8]) -> (r: Result<(), WireError>)
        ensures
            final(self)@ == merge_run(old(self)@, bytes@, Self::apply_fn()).0,
            r == match merge_run(old(self)@, bytes@, Self::apply_fn()).1 {
                None => Ok::<(), WireError>(()),
                Some(e) => Err::<(), WireError>(e),
            },
    {
        let ghost total = merge_run(self@, bytes@, Self::apply_fn());
        let mut cur = Self::default();
        std::mem::swap(&mut cur, self);
        let mut pos: usize = 0;
        assert(bytes@.skip(0) =~= bytes@);
        while pos < bytes.len()
            invariant
                pos <= bytes@.len(),
                total == merge_run(old(self)@, bytes@, Self::apply_fn()),
                merge_run(cur@, bytes@.skip(pos as int), Self::apply_fn()) == total,
            decreases bytes@.len() - pos,
        {
            let ghost s = bytes@.skip(pos as int);
            proof {
                lemma_merge_run_step(cur@, s, Self::apply_fn());
                lemma_parse_field_len(s);
            }
            match read_field(bytes, pos) {
                Ok((f, end)) => {
                    assert(bytes@.skip(end as int) =~= s.skip((end - pos) as int));
                    match cur.applied(&f) {
                        Ok(m) => {
                            cur = m;
                        },
                        Err((m, e)) => {
                            *self = m;
                            return Err(e);
                        },
                    }
                    pos = end;
                },
                Err(e) => {
                    *self = cur;
                    return Err(e);
                },
            }
        }
        assert(bytes@.skip(pos as int) =~= Seq::<u8>::empty());
        proof {
            lemma_merge_run_empty(cur@, Self::apply_fn());
        }
        *self = cur;
        Ok(())
    }

    /// Decodes a message from its encoding.
    pub fn decode(bytes: &[u8]) -> (r: Result<Self, WireError>)
        ensures
            match Self::spec_decode(bytes@) {
                Ok(v) => r matches Ok(m) && m@ == v,
                Err(e) => r matches Err(x) && x == e,
            },
    {
        proof {
            reveal(CPublishedFile_RemoveAppRelationship_Response::spec_decode);
        }
        let mut m = Self::default();
        match m.merge(bytes) {
            Ok(()) => Ok(m),
            Err(e) => Err(e),
        }
    }

    /// The encoding of this message.
    pub fn encode_to_vec(&self) -> (r: Vec<u8>)
        ensures
            r@ == Self::spec_encode(self@),
    {
        let ghost v = self@;
        let mut out: Vec<u8> = Vec::new();
        let ghost p0 = Seq::<SpecField>::empty();
        proof {
            reveal(CPublishedFile_RemoveAppRelationship_Response::spec_encode);
        }
        assert(p0 == Self::spec_fields(v));
        assert(out@ =~= fields_bytes(p0));
        out
    }

    /// Appends the encoding of this message to `out`.
    pub fn encode_raw(&self, out: &mut Vec<u8>)
        ensures
            final(out)@ == old(out)@ + Self::spec_encode(self@),
    {
        let mut b = self.encode_to_vec();
        out.append(&mut b);
    }

    /// The first `k` fields of `v`, the others as a fresh message has them.
    #[verifier::opaque]
    pub open spec fn spec_prefix(v: SpecCPublishedFile_RemoveAppRelationship_Response, k: int) -> SpecCPublishedFile_RemoveAppRelationship_Response {
        SpecCPublishedFile_RemoveAppRelationship_Response {}
    }

    /// Whether this message declares field number `n`.
    pub open spec fn declares(n: u32) -> bool {
        false
    }

    /// A record with a number this message does not declare is passed over: well-formed
    /// bytes decode to the same message with such a record after them as without it.
    pub proof fn lemma_unknown_field(bytes: Seq<u8>, f: SpecField)
        requires
            parse_fields(bytes) is Ok,
            field_wf(f),
            !Self::declares(f.number),
        ensures
            Self::spec_decode(bytes + field_bytes(f)) == Self::spec_decode(bytes),
    {
        reveal(CPublishedFile_RemoveAppRelationship_Response::spec_decode);
        lemma_parse_fields_append(bytes, f);
        let fs = parse_fields(bytes).unwrap();
        let apply = Self::apply_fn();
        lemma_fold_concat(Self::spec_default(), fs, seq![f], apply);
        assert(fs.push(f) =~= fs + seq![f]);
        if let Ok(w) = fold_fields(Self::spec_default(), fs, apply) {
            lemma_fold_single(w, f, apply);
        }
        lemma_merge_run_fold(Self::spec_default(), bytes, apply);
        lemma_merge_run_fold(Self::spec_default(), bytes + field_bytes(f), apply);
    }

    /// Decoding the encoding of a message gives the message back.
    pub proof fn lemma_decode_encode(v: SpecCPublishedFile_RemoveAppRelationship_Response)
        requires
            Self::spec_encode(v).len() <= u64::MAX,
        ensures
            Self::spec_decode(Self::spec_encode(v)) == Ok::<SpecCPublishedFile_RemoveAppRelationship_Response, WireError>(v),
    {
        let apply = Self::apply_fn();
        let d = Self::spec_default();
        let p0 = Seq::<SpecField>::empty();
        assert(parse_fields(Self::spec_encode(v)) == Ok::<Seq<SpecField>, WireError>(p0)) by {
            reveal(CPublishedFile_RemoveAppRelationship_Response::spec_encode);
            assert(numbers_ok(p0) && fields_wf(p0)) by {
                reveal(numbers_ok);
                reveal(fields_wf);
            }
            assert(p0 == Self::spec_fields(v));
            lemma_fields_wf_from_len(p0);
            lemma_fields_roundtrip(p0);
        }
        assert(Self::spec_prefix(v, 0) == d) by {
            reveal(CPublishedFile_RemoveAppRelationship_Response::spec_prefix);
        }
        lemma_fold_empty(d, apply);
        assert(Self::spec_prefix(v, 0) == v) by {
            reveal(CPublishedFile_RemoveAppRelationship_Response::spec_prefix);
        }
        lemma_merge_run_fold(d, Self::spec_encode(v), apply);
        assert(Self::spec_decode(Self::spec_encode(v)) == Ok::<SpecCPublishedFile_RemoveAppRelationship_Response, WireError>(v)) by {
            reveal(CPublishedFile_RemoveAppRelationship_Response::spec_decode);
        }
    }
}

/// `CPublishedFile_GetAppRelationships_Request`, as Valve's schema declares it.
#[derive(Debug, Clone, PartialEq)]
pub struct CPublishedFile_GetAppRelationships_Request {
    /// Field 1.
    pub publishedfileid: Option<u64>,
}

/// What a `CPublishedFile_GetAppRelationships_Request` holds, as mathematical values.
#[verifier::ext_equal]
pub struct SpecCPublishedFile_GetAppRelationships_Request {
    pub publishedfileid: Option<u64>,
}

impl View for CPublishedFile_GetAppRelationships_Request {
    type V = SpecCPublishedFile_GetAppRelationships_Request;

    open spec fn view(&self) -> SpecCPublishedFile_GetAppRelationships_Request {
        SpecCPublishedFile_GetAppRelationships_Request {
            publishedfileid: self.publishedfileid,
        }
    }
}

impl Default for CPublishedFile_GetAppRelationships_Request {
    fn default() -> (r: Self)
        ensures
            r@ == CPublishedFile_GetAppRelationships_Request::spec_default(),
    {
        CPublishedFile_GetAppRelationships_Request {
            publishedfileid: None,
        }
    }
}

impl CPublishedFile_GetAppRelationships_Request {
    pub open spec fn spec_default() -> SpecCPublishedFile_GetAppRelationships_Request {
        SpecCPublishedFile_GetAppRelationships_Request {
            publishedfileid: None,
        }
    }

    /// The records a `CPublishedFile_GetAppRelationships_Request` is written as, in field order.
    pub open spec fn spec_fields(v: SpecCPublishedFile_GetAppRelationships_Request) -> Seq<SpecField> {
        Seq::<SpecField>::empty()
            + opt_u64(1, v.publishedfileid)
    }

    #[verifier::opaque]
    pub open spec fn spec_encode(v: SpecCPublishedFile_GetAppRelationships_Request) -> Seq<u8> {
        fields_bytes(Self::spec_fields(v))
    }

    /// What one record does to the message: a declared number sets or extends its
    /// field, any other number is left alone.
    pub open spec fn spec_apply(v: SpecCPublishedFile_GetAppRelationships_Request, f: SpecField) -> Result<SpecCPublishedFile_GetAppRelationships_Request, WireError> {
        match f.number {
            1 => match dec_u64(f.value) {
                Ok(x) => Ok(SpecCPublishedFile_GetAppRelationships_Request { publishedfileid: Some(x), ..v }),
                Err(e) => Err(e),
            },
            _ => Ok(v),
        }
    }

    pub open spec fn apply_fn() -> spec_fn(SpecCPublishedFile_GetAppRelationships_Request, SpecField) -> Result<SpecCPublishedFile_GetAppRelationships_Request, WireError> {
        |v: SpecCPublishedFile_GetAppRelationships_Request, f: SpecField| Self::spec_apply(v, f)
    }

    /// The message `bytes` makes of `v`: its records applied in order, or the error
    /// that stops the reading.
    pub open spec fn spec_merge(v: SpecCPublishedFile_GetAppRelationships_Request, bytes: Seq<u8>) -> Result<SpecCPublishedFile_GetAppRelationships_Request, WireError> {
        let (w, stop) = merge_run(v, bytes, Self::apply_fn());
        match stop {
            None => Ok(w),
            Some(e) => Err(e),
        }
    }

    #[verifier::opaque]
    pub open spec fn spec_decode(bytes: Seq<u8>) -> Result<SpecCPublishedFile_GetAppRelationships_Request, WireError> {
        Self::spec_merge(Self::spec_default(), bytes)
    }

    /// This message with one record applied to it, or, when the record is refused,
    /// the message unchanged and the reason.
    fn applied(self, f: &Field) -> (r: Result<Self, (Self, WireError)>)
        ensures
            match Self::spec_apply(self@, f@) {
                Ok(v) => r matches Ok(m) && m@ == v,
                Err(e) => r matches Err((m, x)) && x == e && m@ == self@,
            },
    {
        match f.number {
            1 => match read_u64(&f.value) {
                Ok(x) => Ok(Self { publishedfileid: Some(x), ..self }),
                Err(e) => Err((self, e)),
            },
            _ => Ok(self),
        }
    }

    /// Reads the records `bytes` holds into this message, in order. When a record does
    /// not parse or is refused, the reading stops there: the message keeps what the
    /// records before it gave, and the error is returned.
    pub fn merge(&mut self, bytes: &[u8]) -> (r: Result<(), WireError>)
        ensures
            final(self)@ == merge_run(old(self)@, bytes@, Self::apply_fn()).0,
            r == match merge_run(old(self)@, bytes@, Self::apply_fn()).1 {
                None => Ok::<(), WireError>(()),
                Some(e) => Err::<(), WireError>(e),
            },
    {
        let ghost total = merge_run(self@, bytes@, Self::apply_fn());
        let mut cur = Self::default();
        std::mem::swap(&mut cur, self);
        let mut pos: usize = 0;
        assert(bytes@.skip(0) =~= bytes@);
        while pos < bytes.len()
            invariant
                pos <= bytes@.len(),
                total == merge_run(old(self)@, bytes@, Self::apply_fn()),
                merge_run(cur@, bytes@.skip(pos as int), Self::apply_fn()) == total,
            decreases bytes@.len() - pos,
        {
            let ghost s = bytes@.skip(pos as int);
            proof {
                lemma_merge_run_step(cur@, s, Self::apply_fn());
                lemma_parse_field_len(s);
            }
            match read_field(bytes, pos) {
                Ok((f, end)) => {
                    assert(bytes@.skip(end as int) =~= s.skip((end - pos) as int));
                    match cur.applied(&f) {
                        Ok(m) => {
                            cur = m;
                        },
                        Err((m, e)) => {
                            *self = m;
                            return Err(e);
                        },
                    }
                    pos = end;
                },
                Err(e) => {
                    *self = cur;
                    return Err(e);
                },
            }
        }
        assert(bytes@.skip(pos as int) =~= Seq::<u8>::empty());
        proof {
            lemma_merge_run_empty(cur@, Self::apply_fn());
        }
        *self = cur;
        Ok(())
    }

    /// Decodes a message from its encoding.
    pub fn decode(bytes: &[u8]) -> (r: Result<Self, WireError>)
        ensures
            match Self::spec_decode(bytes@) {
                Ok(v) => r matches Ok(m) && m@ == v,
                Err(e) => r matches Err(x) && x == e,
            },
    {
        proof {
            reveal(CPublishedFile_GetAppRelationships_Request::spec_decode);
        }
        let mut m = Self::default();
        match m.merge(bytes) {
            Ok(()) => Ok(m),
            Err(e) => Err(e),
        }
    }

    /// The encoding of this message.
    pub fn encode_to_vec(&self) -> (r: Vec<u8>)
        ensures
            r@ == Self::spec_encode(self@),
    {
        let ghost v = self@;
        let mut out: Vec<u8> = Vec::new();
        let ghost p0 = Seq::<SpecField>::empty();
        put_opt_varint(&mut out, 1, self.publishedfileid);
        let ghost p1 = p0 + opt_u64(1, v.publishedfileid);
        proof {
            lemma_fields_bytes_concat(p0, opt_u64(1, v.publishedfileid));
        }
        proof {
            reveal(CPublishedFile_GetAppRelationships_Request::spec_encode);
        }
        assert(p1 == Self::spec_fields(v));
        out
    }

    /// Appends the encoding of this message to `out`.
    pub fn encode_raw(&self, out: &mut Vec<u8>)
        ensures
            final(out)@ == old(out)@ + Self::spec_encode(self@),
    {
        let mut b = self.encode_to_vec();
        out.append(&mut b);
    }

    /// The first `k` fields of `v`, the others as a fresh message has them.
    #[verifier::opaque]
    pub open spec fn spec_prefix(v: SpecCPublishedFile_GetAppRelationships_Request, k: int) -> SpecCPublishedFile_GetAppRelationships_Request {
        SpecCPublishedFile_GetAppRelationships_Request {
            publishedfileid: if 1 <= k { v.publishedfileid } else { None },
        }
    }

    /// Reading field 1 back, after the fields before it.
    proof fn lemma_field_publishedfileid(v: SpecCPublishedFile_GetAppRelationships_Request)
        ensures
            fold_fields(Self::spec_prefix(v, 0), opt_u64(1, v.publishedfileid), Self::apply_fn())
                == Ok::<SpecCPublishedFile_GetAppRelationships_Request, WireError>(Self::spec_prefix(v, 1)),
    {
        reveal(CPublishedFile_GetAppRelationships_Request::spec_prefix);
        reveal(opt_u64);
        let apply = Self::apply_fn();
        let s = Self::spec_prefix(v, 0);
        lemma_fold_opt(s, 1, match v.publishedfileid { Some(x) => Some(enc_u64(x)), None => None }, apply);
        if let Some(x) = v.publishedfileid {
            lemma_u64_roundtrip(x);
        }
        assert(SpecCPublishedFile_GetAppRelationships_Request { publishedfileid: v.publishedfileid, ..s } == Self::spec_prefix(v, 1));
    }

    /// Whether this message declares field number `n`.
    pub open spec fn declares(n: u32) -> bool {
        n == 1
    }

    /// A record with a number this message does not declare is passed over: well-formed
    /// bytes decode to the same message with such a record after them as without it.
    pub proof fn lemma_unknown_field(bytes: Seq<u8>, f: SpecField)
        requires
            parse_fields(bytes) is Ok,
            field_wf(f),
            !Self::declares(f.number),
        ensures
            Self::spec_decode(bytes + field_bytes(f)) == Self::spec_decode(bytes),
    {
        reveal(CPublishedFile_GetAppRelationships_Request::spec_decode);
        lemma_parse_fields_append(bytes, f);
        let fs = parse_fields(bytes).unwrap();
        let apply = Self::apply_fn();
        lemma_fold_concat(Self::spec_default(), fs, seq![f], apply);
        assert(fs.push(f) =~= fs + seq![f]);
        if let Ok(w) = fold_fields(Self::spec_default(), fs, apply) {
            lemma_fold_single(w, f, apply);
        }
        lemma_merge_run_fold(Self::spec_default(), bytes, apply);
        lemma_merge_run_fold(Self::spec_default(), bytes + field_bytes(f), apply);
    }

    /// Decoding the encoding of a message gives the message back.
    pub proof fn lemma_decode_encode(v: SpecCPublishedFile_GetAppRelationships_Request)
        requires
            Self::spec_encode(v).len() <= u64::MAX,
        ensures
            Self::spec_decode(Self::spec_encode(v)) == Ok::<SpecCPublishedFile_GetAppRelationships_Request, WireError>(v),
    {
        let apply = Self::apply_fn();
        let d = Self::spec_default();
        let p0 = Seq::<SpecField>::empty();
        let l1 = opt_u64(1, v.publishedfileid);
        let p1 = p0 + l1;
        assert(parse_fields(Self::spec_encode(v)) == Ok::<Seq<SpecField>, WireError>(p1)) by {
            reveal(CPublishedFile_GetAppRelationships_Request::spec_encode);
            assert(numbers_ok(p0) && fields_wf(p0)) by {
                reveal(numbers_ok);
                reveal(fields_wf);
            }
            lemma_opt_u64_numbered(1, v.publishedfileid);
            lemma_fields_wf_concat(p0, l1);
            assert(p1 == Self::spec_fields(v));
            lemma_fields_wf_from_len(p1);
            lemma_fields_roundtrip(p1);
        }
        assert(Self::spec_prefix(v, 0) == d) by {
            reveal(CPublishedFile_GetAppRelationships_Request::spec_prefix);
        }
        lemma_fold_empty(d, apply);
        lemma_fold_concat(d, p0, l1, apply);
        Self::lemma_field_publishedfileid(v);
        assert(Self::spec_prefix(v, 1) == v) by {
            reveal(CPublishedFile_GetAppRelationships_Request::spec_prefix);
        }
        lemma_merge_run_fold(d, Self::spec_encode(v), apply);
        assert(Self::spec_decode(Self::spec_encode(v)) == Ok::<SpecCPublishedFile_GetAppRelationships_Request, WireError>(v)) by {
            reveal(CPublishedFile_GetAppRelationships_Request::spec_decode);
        }
    }
}

/// `CPublishedFile_GetAppRelationships_Response`, as Valve's schema declares it.
#[derive(Debug, Clone, PartialEq)]
pub struct CPublishedFile_GetAppRelationships_Response {
    /// Field 3.
    pub app_relationships: Vec<crate::steammessages_publishedfile_steamclient::c_published_file_get_app_relationships_response::AppRelationship>,
}

/// What a `CPublishedFile_GetAppRelationships_Response` holds, as mathematical values.
#[verifier::ext_equal]
pub struct SpecCPublishedFile_GetAppRelationships_Response {
    pub app_relationships: Seq<crate::steammessages_publishedfile_steamclient::c_published_file_get_app_relationships_response::SpecAppRelationship>,
}

impl View for CPublishedFile_GetAppRelationships_Response {
    type V = SpecCPublishedFile_GetAppRelationships_Response;

    open spec fn view(&self) -> SpecCPublishedFile_GetAppRelationships_Response {
        SpecCPublishedFile_GetAppRelationships_Response {
            app_relationships: crate::steammessages_publishedfile_steamclient::c_published_file_get_app_relationships_response::AppRelationship::view_all(self.app_relationships@),
        }
    }
}

impl Default for CPublishedFile_GetAppRelationships_Response {
    fn default() -> (r: Self)
        ensures
            r@ == CPublishedFile_GetAppRelationships_Response::spec_default(),
    {
        CPublishedFile_GetAppRelationships_Response {
            app_relationships: Vec::new(),
        }
    }
}

impl CPublishedFile_GetAppRelationships_Response {
    pub open spec fn spec_default() -> SpecCPublishedFile_GetAppRelationships_Response {
        SpecCPublishedFile_GetAppRelationships_Response {
            app_relationships: Seq::empty(),
        }
    }

    /// The records a `CPublishedFile_GetAppRelationships_Response` is written as, in field order.
    pub open spec fn spec_fields(v: SpecCPublishedFile_GetAppRelationships_Response) -> Seq<SpecField> {
        Seq::<SpecField>::empty()
            + rep_bytes(3, crate::steammessages_publishedfile_steamclient::c_published_file_get_app_relationships_response::AppRelationship::spec_encode_all(v.app_relationships))
    }

    #[verifier::opaque]
    pub open spec fn spec_encode(v: SpecCPublishedFile_GetAppRelationships_Response) -> Seq<u8> {
        fields_bytes(Self::spec_fields(v))
    }

    /// What one record does to the message: a declared number sets or extends its
    /// field, any other number is left alone.
    pub open spec fn spec_apply(v: SpecCPublishedFile_GetAppRelationships_Response, f: SpecField) -> Result<SpecCPublishedFile_GetAppRelationships_Response, WireError> {
        match f.number {
            3 => match dec_bytes(f.value) {
                Ok(b) => match crate::steammessages_publishedfile_steamclient::c_published_file_get_app_relationships_response::AppRelationship::spec_decode(b) {
                    Ok(m) => Ok(SpecCPublishedFile_GetAppRelationships_Response { app_relationships: v.app_relationships.push(m), ..v }),
                    Err(e) => Err(e),
                },
                Err(e) => Err(e),
            },
            _ => Ok(v),
        }
    }

    pub open spec fn apply_fn() -> spec_fn(SpecCPublishedFile_GetAppRelationships_Response, SpecField) -> Result<SpecCPublishedFile_GetAppRelationships_Response, WireError> {
        |v: SpecCPublishedFile_GetAppRelationships_Response, f: SpecField| Self::spec_apply(v, f)
    }

    /// The message `bytes` makes of `v`: its records applied in order, or the error
    /// that stops the reading.
    pub open spec fn spec_merge(v: SpecCPublishedFile_GetAppRelationships_Response, bytes: Seq<u8>) -> Result<SpecCPublishedFile_GetAppRelationships_Response, WireError> {
        let (w, stop) = merge_run(v, bytes, Self::apply_fn());
        match stop {
            None => Ok(w),
            Some(e) => Err(e),
        }
    }

    #[verifier::opaque]
    pub open spec fn spec_decode(bytes: Seq<u8>) -> Result<SpecCPublishedFile_GetAppRelationships_Response, WireError> {
        Self::spec_merge(Self::spec_default(), bytes)
    }

    /// This message with one record applied to it, or, when the record is refused,
    /// the message unchanged and the reason.
    fn applied(self, f: &Field) -> (r: Result<Self, (Self, WireError)>)
        ensures
            match Self::spec_apply(self@, f@) {
                Ok(v) => r matches Ok(m) && m@ == v,
                Err(e) => r matches Err((m, x)) && x == e && m@ == self@,
            },
    {
        match f.number {
            3 => match read_payload(&f.value) {
                Ok(b) => match crate::steammessages_publishedfile_steamclient::c_published_file_get_app_relationships_response::AppRelationship::decode(b) {
                    Ok(x) => {
                        let mut m = self;
                        let ghost before = m.app_relationships@;
                        m.app_relationships.push(x);
                        assert(crate::steammessages_publishedfile_steamclient::c_published_file_get_app_relationships_response::AppRelationship::view_all(m.app_relationships@) =~= crate::steammessages_publishedfile_steamclient::c_published_file_get_app_relationships_response::AppRelationship::view_all(before).push(x@));
                        Ok(m)
                    },
                    Err(e) => Err((self, e)),
                },
                Err(e) => Err((self, e)),
            },
            _ => Ok(self),
        }
    }

    /// Reads the records `bytes` holds into this message, in order. When a record does
    /// not parse or is refused, the reading stops there: the message keeps what the
    /// records before it gave, and the error is returned.
    pub fn merge(&mut self, bytes: &[u8]) -> (r: Result<(), WireError>)
        ensures
            final(self)@ == merge_run(old(self)@, bytes@, Self::apply_fn()).0,
            r == match merge_run(old(self)@, bytes@, Self::apply_fn()).1 {
                None => Ok::<(), WireError>(()),
                Some(e) => Err::<(), WireError>(e),
            },
    {
        let ghost total = merge_run(self@, bytes@, Self::apply_fn());
        let mut cur = Self::default();
        std::mem::swap(&mut cur, self);
        let mut pos: usize = 0;
        assert(bytes@.skip(0) =~= bytes@);
        while pos < bytes.len()
            invariant
                pos <= bytes@.len(),
                total == merge_run(old(self)@, bytes@, Self::apply_fn()),
                merge_run(cur@, bytes@.skip(pos as int), Self::apply_fn()) == total,
            decreases bytes@.len() - pos,
        {
            let ghost s = bytes@.skip(pos as int);
            proof {
                lemma_merge_run_step(cur@, s, Self::apply_fn());
                lemma_parse_field_len(s);
            }
            match read_field(bytes, pos) {
                Ok((f, end)) => {
                    assert(bytes@.skip(end as int) =~= s.skip((end - pos) as int));
                    match cur.applied(&f) {
                        Ok(m) => {
                            cur = m;
                        },
                        Err((m, e)) => {
                            *self = m;
                            return Err(e);
                        },
                    }
                    pos = end;
                },
                Err(e) => {
                    *self = cur;
                    return Err(e);
                },
            }
        }
        assert(bytes@.skip(pos as int) =~= Seq::<u8>::empty());
        proof {
            lemma_merge_run_empty(cur@, Self::apply_fn());
        }
        *self = cur;
        Ok(())
    }

    /// Decodes a message from its encoding.
    pub fn decode(bytes: &[u8]) -> (r: Result<Self, WireError>)
        ensures
            match Self::spec_decode(bytes@) {
                Ok(v) => r matches Ok(m) && m@ == v,
                Err(e) => r matches Err(x) && x == e,
            },
    {
        proof {
            reveal(CPublishedFile_GetAppRelationships_Response::spec_decode);
        }
        let mut m = Self::default();
        match m.merge(bytes) {
            Ok(()) => Ok(m),
            Err(e) => Err(e),
        }
    }

    /// The encoding of this message.
    pub fn encode_to_vec(&self) -> (r: Vec<u8>)
        ensures
            r@ == Self::spec_encode(self@),
    {
        let enc_app_relationships = crate::steammessages_publishedfile_steamclient::c_published_file_get_app_relationships_response::AppRelationship::encode_all(&self.app_relationships);
        let ghost v = self@;
        let mut out: Vec<u8> = Vec::new();
        let ghost p0 = Seq::<SpecField>::empty();
        put_rep_bytes(&mut out, 3, &enc_app_relationships);
        let ghost p1 = p0 + rep_bytes(3, crate::steammessages_publishedfile_steamclient::c_published_file_get_app_relationships_response::AppRelationship::spec_encode_all(v.app_relationships));
        proof {
            lemma_fields_bytes_concat(p0, rep_bytes(3, crate::steammessages_publishedfile_steamclient::c_published_file_get_app_relationships_response::AppRelationship::spec_encode_all(v.app_relationships)));
        }
        proof {
            reveal(CPublishedFile_GetAppRelationships_Response::spec_encode);
        }
        assert(p1 == Self::spec_fields(v));
        out
    }

    /// Appends the encoding of this message to `out`.
    pub fn encode_raw(&self, out: &mut Vec<u8>)
        ensures
            final(out)@ == old(out)@ + Self::spec_encode(self@),
    {
        let mut b = self.encode_to_vec();
        out.append(&mut b);
    }

    /// The first `k` fields of `v`, the others as a fresh message has them.
    #[verifier::opaque]
    pub open spec fn spec_prefix(v: SpecCPublishedFile_GetAppRelationships_Response, k: int) -> SpecCPublishedFile_GetAppRelationships_Response {
        SpecCPublishedFile_GetAppRelationships_Response {
            app_relationships: if 1 <= k { v.app_relationships } else { Seq::empty() },
        }
    }

    /// Reading field 3 back, after the fields before it.
    proof fn lemma_field_app_relationships(v: SpecCPublishedFile_GetAppRelationships_Response)
        requires
            fields_wf(rep_bytes(3, crate::steammessages_publishedfile_steamclient::c_published_file_get_app_relationships_response::AppRelationship::spec_encode_all(v.app_relationships))),
        ensures
            fold_fields(Self::spec_prefix(v, 0), rep_bytes(3, crate::steammessages_publishedfile_steamclient::c_published_file_get_app_relationships_response::AppRelationship::spec_encode_all(v.app_relationships)), Self::apply_fn())
                == Ok::<SpecCPublishedFile_GetAppRelationships_Response, WireError>(Self::spec_prefix(v, 1)),
    {
        reveal(CPublishedFile_GetAppRelationships_Response::spec_prefix);
        reveal(rep_bytes);
        reveal(fields_wf);
        let apply = Self::apply_fn();
        let s = Self::spec_prefix(v, 0);
        let l = rep_bytes(3, crate::steammessages_publishedfile_steamclient::c_published_file_get_app_relationships_response::AppRelationship::spec_encode_all(v.app_relationships));
        let xs = v.app_relationships;
        let st = Seq::new((xs.len() + 1) as nat, |j: int| SpecCPublishedFile_GetAppRelationships_Response { app_relationships: xs.take(j), ..s });
        assert forall|j: int| 0 <= j < l.len() implies #[trigger] apply(st[j], l[j]) == Ok::<SpecCPublishedFile_GetAppRelationships_Response, WireError>(st[j + 1]) by {
            assert(field_wf(l[j]));
            crate::steammessages_publishedfile_steamclient::c_published_file_get_app_relationships_response::AppRelationship::lemma_decode_encode(xs[j]);
            assert(xs.take(j).push(xs[j]) =~= xs.take(j + 1));
        }
        lemma_fold_chain(l, st, apply);
        assert(xs.take(0) =~= Seq::<crate::steammessages_publishedfile_steamclient::c_published_file_get_app_relationships_response::SpecAppRelationship>::empty());
        assert(xs.take(xs.len() as int) =~= xs);
        assert(st[0] == s);
        assert(st[xs.len() as int] == Self::spec_prefix(v, 1));
    }

    /// Whether this message declares field number `n`.
    pub open spec fn declares(n: u32) -> bool {
        n == 3
    }

    /// A record with a number this message does not declare is passed over: well-formed
    /// bytes decode to the same message with such a record after them as without it.
    pub proof fn lemma_unknown_field(bytes: Seq<u8>, f: SpecField)
        requires
            parse_fields(bytes) is Ok,
            field_wf(f),
            !Self::declares(f.number),
        ensures
            Self::spec_decode(bytes + field_bytes(f)) == Self::spec_decode(bytes),
    {
        reveal(CPublishedFile_GetAppRelationships_Response::spec_decode);
        lemma_parse_fields_append(bytes, f);
        let fs = parse_fields(bytes).unwrap();
        let apply = Self::apply_fn();
        lemma_fold_concat(Self::spec_default(), fs, seq![f], apply);
        assert(fs.push(f) =~= fs + seq![f]);
        if let Ok(w) = fold_fields(Self::spec_default(), fs, apply) {
            lemma_fold_single(w, f, apply);
        }
        lemma_merge_run_fold(Self::spec_default(), bytes, apply);
        lemma_merge_run_fold(Self::spec_default(), bytes + field_bytes(f), apply);
    }

    /// Decoding the encoding of a message gives the message back.
    pub proof fn lemma_decode_encode(v: SpecCPublishedFile_GetAppRelationships_Response)
        requires
            Self::spec_encode(v).len() <= u64::MAX,
        ensures
            Self::spec_decode(Self::spec_encode(v)) == Ok::<SpecCPublishedFile_GetAppRelationships_Response, WireError>(v),
    {
        let apply = Self::apply_fn();
        let d = Self::spec_default();
        let p0 = Seq::<SpecField>::empty();
        let l1 = rep_bytes(3, crate::steammessages_publishedfile_steamclient::c_published_file_get_app_relationships_response::AppRelationship::spec_encode_all(v.app_relationships));
        let p1 = p0 + l1;
        assert(parse_fields(Self::spec_encode(v)) == Ok::<Seq<SpecField>, WireError>(p1) && fields_wf(l1)) by {
            reveal(CPublishedFile_GetAppRelationships_Response::spec_encode);
            assert(numbers_ok(p0) && fields_wf(p0)) by {
                reveal(numbers_ok);
                reveal(fields_wf);
            }
            lemma_rep_bytes_numbered(3, crate::steammessages_publishedfile_steamclient::c_published_file_get_app_relationships_response::AppRelationship::spec_encode_all(v.app_relationships));
            lemma_fields_wf_concat(p0, l1);
            assert(p1 == Self::spec_fields(v));
            lemma_fields_wf_from_len(p1);
            lemma_fields_roundtrip(p1);
        }
        assert(Self::spec_prefix(v, 0) == d) by {
            reveal(CPublishedFile_GetAppRelationships_Response::spec_prefix);
        }
        lemma_fold_empty(d, apply);
        lemma_fold_concat(d, p0, l1, apply);
        Self::lemma_field_app_relationships(v);
        assert(Self::spec_prefix(v, 1) == v) by {
            reveal(CPublishedFile_GetAppRelationships_Response::spec_prefix);
        }
        lemma_merge_run_fold(d, Self::spec_encode(v), apply);
        assert(Self::spec_decode(Self::spec_encode(v)) == Ok::<SpecCPublishedFile_GetAppRelationships_Response, WireError>(v)) by {
            reveal(CPublishedFile_GetAppRelationships_Response::spec_decode);
        }
    }
}

/// `CPublishedFile_GetAppRelationshipsBatched_Request`, as Valve's schema declares it.
#[derive(Debug, Clone, PartialEq)]
pub struct CPublishedFile_GetAppRelationshipsBatched_Request {
    /// Field 1.
    pub publishedfileids: Vec<u64>,
    /// Field 2.
    pub filter_relationship: Option<u32>,
}

/// What a `CPublishedFile_GetAppRelationshipsBatched_Request` holds, as mathematical values.
#[verifier::ext_equal]
pub struct SpecCPublishedFile_GetAppRelationshipsBatched_Request {
    pub publishedfileids: Seq<u64>,
    pub filter_relationship: Option<u32>,
}

impl View for CPublishedFile_GetAppRelationshipsBatched_Request {
    type V = SpecCPublishedFile_GetAppRelationshipsBatched_Request;

    open spec fn view(&self) -> SpecCPublishedFile_GetAppRelationshipsBatched_Request {
        SpecCPublishedFile_GetAppRelationshipsBatched_Request {
            publishedfileids: self.publishedfileids@,
            filter_relationship: self.filter_relationship,
        }
    }
}

impl Default for CPublishedFile_GetAppRelationshipsBatched_Request {
    fn default() -> (r: Self)
        ensures
            r@ == CPublishedFile_GetAppRelationshipsBatched_Request::spec_default(),
    {
        CPublishedFile_GetAppRelationshipsBatched_Request {
            publishedfileids: Vec::new(),
            filter_relationship: None,
        }
    }
}

impl CPublishedFile_GetAppRelationshipsBatched_Request {
    pub open spec fn spec_default() -> SpecCPublishedFile_GetAppRelationshipsBatched_Request {
        SpecCPublishedFile_GetAppRelationshipsBatched_Request {
            publishedfileids: Seq::empty(),
            filter_relationship: None,
        }
    }

    /// The records a `CPublishedFile_GetAppRelationshipsBatched_Request` is written as, in field order.
    pub open spec fn spec_fields(v: SpecCPublishedFile_GetAppRelationshipsBatched_Request) -> Seq<SpecField> {
        Seq::<SpecField>::empty()
            + rep_u64(1, v.publishedfileids)
            + opt_u32(2, v.filter_relationship)
    }

    #[verifier::opaque]
    pub open spec fn spec_encode(v: SpecCPublishedFile_GetAppRelationshipsBatched_Request) -> Seq<u8> {
        fields_bytes(Self::spec_fields(v))
    }

    /// What one record does to the message: a declared number sets or extends its
    /// field, any other number is left alone.
    pub open spec fn spec_apply(v: SpecCPublishedFile_GetAppRelationshipsBatched_Request, f: SpecField) -> Result<SpecCPublishedFile_GetAppRelationshipsBatched_Request, WireError> {
        match f.number {
            1 => match dec_packed_varint(f.value) {
                Ok(xs) => Ok(SpecCPublishedFile_GetAppRelationshipsBatched_Request { publishedfileids: v.publishedfileids + xs, ..v }),
                Err(e) => Err(e),
            },
            2 => match dec_u32(f.value) {
                Ok(x) => Ok(SpecCPublishedFile_GetAppRelationshipsBatched_Request { filter_relationship: Some(x), ..v }),
                Err(e) => Err(e),
            },
            _ => Ok(v),
        }
    }

    pub open spec fn apply_fn() -> spec_fn(SpecCPublishedFile_GetAppRelationshipsBatched_Request, SpecField) -> Result<SpecCPublishedFile_GetAppRelationshipsBatched_Request, WireError> {
        |v: SpecCPublishedFile_GetAppRelationshipsBatched_Request, f: SpecField| Self::spec_apply(v, f)
    }

    /// The message `bytes` makes of `v`: its records applied in order, or the error
    /// that stops the reading.
    pub open spec fn spec_merge(v: SpecCPublishedFile_GetAppRelationshipsBatched_Request, bytes: Seq<u8>) -> Result<SpecCPublishedFile_GetAppRelationshipsBatched_Request, WireError> {
        let (w, stop) = merge_run(v, bytes, Self::apply_fn());
        match stop {
            None => Ok(w),
            Some(e) => Err(e),
        }
    }

    #[verifier::opaque]
    pub open spec fn spec_decode(bytes: Seq<u8>) -> Result<SpecCPublishedFile_GetAppRelationshipsBatched_Request, WireError> {
        Self::spec_merge(Self::spec_default(), bytes)
    }

    /// This message with one record applied to it, or, when the record is refused,
    /// the message unchanged and the reason.
    fn applied(self, f: &Field) -> (r: Result<Self, (Self, WireError)>)
        ensures
            match Self::spec_apply(self@, f@) {
                Ok(v) => r matches Ok(m) && m@ == v,
                Err(e) => r matches Err((m, x)) && x == e && m@ == self@,
            },
    {
        match f.number {
            1 => match read_packed_varints(&f.value) {
                Ok(xs) => {
                    let mut m = self;
                    let mut xs = xs;
                    m.publishedfileids.append(&mut xs);
                    Ok(m)
                },
                Err(e) => Err((self, e)),
            },
            2 => match read_u32(&f.value) {
                Ok(x) => Ok(Self { filter_relationship: Some(x), ..self }),
                Err(e) => Err((self, e)),
            },
            _ => Ok(self),
        }
    }

    /// Reads the records `bytes` holds into this message, in order. When a record does
    /// not parse or is refused, the reading stops there: the message keeps what the
    /// records before it gave, and the error is returned.
    pub fn merge(&mut self, bytes: &[u8]) -> (r: Result<(), WireError>)
        ensures
            final(self)@ == merge_run(old(self)@, bytes@, Self::apply_fn()).0,
            r == match merge_run(old(self)@, bytes@, Self::apply_fn()).1 {
                None => Ok::<(), WireError>(()),
                Some(e) => Err::<(), WireError>(e),
            },
    {
        let ghost total = merge_run(self@, bytes@, Self::apply_fn());
        let mut cur = Self::default();
        std::mem::swap(&mut cur, self);
        let mut pos: usize = 0;
        assert(bytes@.skip(0) =~= bytes@);
        while pos < bytes.len()
            invariant
                pos <= bytes@.len(),
                total == merge_run(old(self)@, bytes@, Self::apply_fn()),
                merge_run(cur@, bytes@.skip(pos as int), Self::apply_fn()) == total,
            decreases bytes@.len() - pos,
        {
            let ghost s = bytes@.skip(pos as int);
            proof {
                lemma_merge_run_step(cur@, s, Self::apply_fn());
                lemma_parse_field_len(s);
            }
            match read_field(bytes, pos) {
                Ok((f, end)) => {
                    assert(bytes@.skip(end as int) =~= s.skip((end - pos) as int));
                    match cur.applied(&f) {
                        Ok(m) => {
                            cur = m;
                        },
                        Err((m, e)) => {
                            *self = m;
                            return Err(e);
                        },
                    }
                    pos = end;
                },
                Err(e) => {
                    *self = cur;
                    return Err(e);
                },
            }
        }
        assert(bytes@.skip(pos as int) =~= Seq::<u8>::empty());
        proof {
            lemma_merge_run_empty(cur@, Self::apply_fn());
        }
        *self = cur;
        Ok(())
    }

    /// Decodes a message from its encoding.
    pub fn decode(bytes: &[u8]) -> (r: Result<Self, WireError>)
        ensures
            match Self::spec_decode(bytes@) {
                Ok(v) => r matches Ok(m) && m@ == v,
                Err(e) => r matches Err(x) && x == e,
            },
    {
        proof {
            reveal(CPublishedFile_GetAppRelationshipsBatched_Request::spec_decode);
        }
        let mut m = Self::default();
        match m.merge(bytes) {
            Ok(()) => Ok(m),
            Err(e) => Err(e),
        }
    }

    /// The encoding of this message.
    pub fn encode_to_vec(&self) -> (r: Vec<u8>)
        ensures
            r@ == Self::spec_encode(self@),
    {
        let ghost v = self@;
        let mut out: Vec<u8> = Vec::new();
        let ghost p0 = Seq::<SpecField>::empty();
        put_rep_u64(&mut out, 1, &self.publishedfileids);
        let ghost p1 = p0 + rep_u64(1, v.publishedfileids);
        proof {
            lemma_fields_bytes_concat(p0, rep_u64(1, v.publishedfileids));
        }
        put_opt_u32(&mut out, 2, self.filter_relationship);
        let ghost p2 = p1 + opt_u32(2, v.filter_relationship);
        proof {
            lemma_fields_bytes_concat(p1, opt_u32(2, v.filter_relationship));
        }
        proof {
            reveal(CPublishedFile_GetAppRelationshipsBatched_Request::spec_encode);
        }
        assert(p2 == Self::spec_fields(v));
        out
    }

    /// Appends the encoding of this message to `out`.
    pub fn encode_raw(&self, out: &mut Vec<u8>)
        ensures
            final(out)@ == old(out)@ + Self::spec_encode(self@),
    {
        let mut b = self.encode_to_vec();
        out.append(&mut b);
    }

    /// The first `k` fields of `v`, the others as a fresh message has them.
    #[verifier::opaque]
    pub open spec fn spec_prefix(v: SpecCPublishedFile_GetAppRelationshipsBatched_Request, k: int) -> SpecCPublishedFile_GetAppRelationshipsBatched_Request {
        SpecCPublishedFile_GetAppRelationshipsBatched_Request {
            publishedfileids: if 1 <= k { v.publishedfileids } else { Seq::empty() },
            filter_relationship: if 2 <= k { v.filter_relationship } else { None },
        }
    }

    /// Reading field 1 back, after the fields before it.
    proof fn lemma_field_publishedfileids(v: SpecCPublishedFile_GetAppRelationshipsBatched_Request)
        ensures
            fold_fields(Self::spec_prefix(v, 0), rep_u64(1, v.publishedfileids), Self::apply_fn())
                == Ok::<SpecCPublishedFile_GetAppRelationshipsBatched_Request, WireError>(Self::spec_prefix(v, 1)),
    {
        reveal(CPublishedFile_GetAppRelationshipsBatched_Request::spec_prefix);
        reveal(rep_u64);
        let apply = Self::apply_fn();
        let s = Self::spec_prefix(v, 0);
        let l = rep_u64(1, v.publishedfileids);
        let xs = v.publishedfileids;
        let st = Seq::new((xs.len() + 1) as nat, |j: int| SpecCPublishedFile_GetAppRelationshipsBatched_Request { publishedfileids: xs.take(j), ..s });
        assert forall|j: int| 0 <= j < l.len() implies #[trigger] apply(st[j], l[j]) == Ok::<SpecCPublishedFile_GetAppRelationshipsBatched_Request, WireError>(st[j + 1]) by {
            lemma_u64_roundtrip(xs[j]);
            assert(xs.take(j) + seq![xs[j]] =~= xs.take(j + 1));
        }
        lemma_fold_chain(l, st, apply);
        assert(xs.take(0) =~= Seq::<u64>::empty());
        assert(xs.take(xs.len() as int) =~= xs);
        assert(st[0] == s);
        assert(st[xs.len() as int] == Self::spec_prefix(v, 1));
    }

    /// Reading field 2 back, after the fields before it.
    proof fn lemma_field_filter_relationship(v: SpecCPublishedFile_GetAppRelationshipsBatched_Request)
        ensures
            fold_fields(Self::spec_prefix(v, 1), opt_u32(2, v.filter_relationship), Self::apply_fn())
                == Ok::<SpecCPublishedFile_GetAppRelationshipsBatched_Request, WireError>(Self::spec_prefix(v, 2)),
    {
        reveal(CPublishedFile_GetAppRelationshipsBatched_Request::spec_prefix);
        reveal(opt_u32);
        let apply = Self::apply_fn();
        let s = Self::spec_prefix(v, 1);
        lemma_fold_opt(s, 2, match v.filter_relationship { Some(x) => Some(enc_u32(x)), None => None }, apply);
        if let Some(x) = v.filter_relationship {
            lemma_u32_roundtrip(x);
        }
        assert(SpecCPublishedFile_GetAppRelationshipsBatched_Request { filter_relationship: v.filter_relationship, ..s } == Self::spec_prefix(v, 2));
    }

    /// Whether this message declares field number `n`.
    pub open spec fn declares(n: u32) -> bool {
        n == 1 || n == 2
    }

    /// A record with a number this message does not declare is passed over: well-formed
    /// bytes decode to the same message with such a record after them as without it.
    pub proof fn lemma_unknown_field(bytes: Seq<u8>, f: SpecField)
        requires
            parse_fields(bytes) is Ok,
            field_wf(f),
            !Self::declares(f.number),
        ensures
            Self::spec_decode(bytes + field_bytes(f)) == Self::spec_decode(bytes),
    {
        reveal(CPublishedFile_GetAppRelationshipsBatched_Request::spec_decode);
        lemma_parse_fields_append(bytes, f);
        let fs = parse_fields(bytes).unwrap();
        let apply = Self::apply_fn();
        lemma_fold_concat(Self::spec_default(), fs, seq![f], apply);
        assert(fs.push(f) =~= fs + seq![f]);
        if let Ok(w) = fold_fields(Self::spec_default(), fs, apply) {
            lemma_fold_single(w, f, apply);
        }
        lemma_merge_run_fold(Self::spec_default(), bytes, apply);
        lemma_merge_run_fold(Self::spec_default(), bytes + field_bytes(f), apply);
    }

    /// Decoding the encoding of a message gives the message back.
    pub proof fn lemma_decode_encode(v: SpecCPublishedFile_GetAppRelationshipsBatched_Request)
        requires
            Self::spec_encode(v).len() <= u64::MAX,
        ensures
            Self::spec_decode(Self::spec_encode(v)) == Ok::<SpecCPublishedFile_GetAppRelationshipsBatched_Request, WireError>(v),
    {
        let apply = Self::apply_fn();
        let d = Self::spec_default();
        let p0 = Seq::<SpecField>::empty();
        let l1 = rep_u64(1, v.publishedfileids);
        let p1 = p0 + l1;
        let l2 = opt_u32(2, v.filter_relationship);
        let p2 = p1 + l2;
        assert(parse_fields(Self::spec_encode(v)) == Ok::<Seq<SpecField>, WireError>(p2)) by {
            reveal(CPublishedFile_GetAppRelationshipsBatched_Request::spec_encode);
            assert(numbers_ok(p0) && fields_wf(p0)) by {
                reveal(numbers_ok);
                reveal(fields_wf);
            }
            lemma_rep_u64_numbered(1, v.publishedfileids);
            lemma_fields_wf_concat(p0, l1);
            lemma_opt_u32_numbered(2, v.filter_relationship);
            lemma_fields_wf_concat(p1, l2);
            assert(p2 == Self::spec_fields(v));
            lemma_fields_wf_from_len(p2);
            lemma_fields_roundtrip(p2);
        }
        assert(Self::spec_prefix(v, 0) == d) by {
            reveal(CPublishedFile_GetAppRelationshipsBatched_Request::spec_prefix);
        }
        lemma_fold_empty(d, apply);
        lemma_fold_concat(d, p0, l1, apply);
        Self::lemma_field_publishedfileids(v);
        lemma_fold_concat(d, p1, l2, apply);
        Self::lemma_field_filter_relationship(v);
        assert(Self::spec_prefix(v, 2) == v) by {
            reveal(CPublishedFile_GetAppRelationshipsBatched_Request::spec_prefix);
        }
        lemma_merge_run_fold(d, Self::spec_encode(v), apply);
        assert(Self::spec_decode(Self::spec_encode(v)) == Ok::<SpecCPublishedFile_GetAppRelationshipsBatched_Request, WireError>(v)) by {
            reveal(CPublishedFile_GetAppRelationshipsBatched_Request::spec_decode);
        }
    }
}

/// `CPublishedFile_GetAppRelationshipsBatched_Response`, as Valve's schema declares it.
#[derive(Debug, Clone, PartialEq)]
pub struct CPublishedFile_GetAppRelationshipsBatched_Response {
    /// Field 1.
    pub relationships: Vec<crate::steammessages_publishedfile_steamclient::c_published_file_get_app_relationships_batched_response::PublishedFileAppRelationship>,
}

/// What a `CPublishedFile_GetAppRelationshipsBatched_Response` holds, as mathematical values.
#[verifier::ext_equal]
pub struct SpecCPublishedFile_GetAppRelationshipsBatched_Response {
    pub relationships: Seq<crate::steammessages_publishedfile_steamclient::c_published_file_get_app_relationships_batched_response::SpecPublishedFileAppRelationship>,
}

impl View for CPublishedFile_GetAppRelationshipsBatched_Response {
    type V = SpecCPublishedFile_GetAppRelationshipsBatched_Response;

    open spec fn view(&self) -> SpecCPublishedFile_GetAppRelationshipsBatched_Response {
        SpecCPublishedFile_GetAppRelationshipsBatched_Response {
            relationships: crate::steammessages_publishedfile_steamclient::c_published_file_get_app_relationships_batched_response::PublishedFileAppRelationship::view_all(self.relationships@),
        }
    }
}

impl Default for CPublishedFile_GetAppRelationshipsBatched_Response {
    fn default() -> (r: Self)
        ensures
            r@ == CPublishedFile_GetAppRelationshipsBatched_Response::spec_default(),
    {
        CPublishedFile_GetAppRelationshipsBatched_Response {
            relationships: Vec::new(),
        }
    }
}

impl CPublishedFile_GetAppRelationshipsBatched_Response {
    pub open spec fn spec_default() -> SpecCPublishedFile_GetAppRelationshipsBatched_Response {
        SpecCPublishedFile_GetAppRelationshipsBatched_Response {
            relationships: Seq::empty(),
        }
    }

    /// The records a `CPublishedFile_GetAppRelationshipsBatched_Response` is written as, in field order.
    pub open spec fn spec_fields(v: SpecCPublishedFile_GetAppRelationshipsBatched_Response) -> Seq<SpecField> {
        Seq::<SpecField>::empty()
            + rep_bytes(1, crate::steammessages_publishedfile_steamclient::c_published_file_get_app_relationships_batched_response::PublishedFileAppRelationship::spec_encode_all(v.relationships))
    }

    #[verifier::opaque]
    pub open spec fn spec_encode(v: SpecCPublishedFile_GetAppRelationshipsBatched_Response) -> Seq<u8> {
        fields_bytes(Self::spec_fields(v))
    }

    /// What one record does to the message: a declared number sets or extends its
    /// field, any other number is left alone.
    pub open spec fn spec_apply(v: SpecCPublishedFile_GetAppRelationshipsBatched_Response, f: SpecField) -> Result<SpecCPublishedFile_GetAppRelationshipsBatched_Response, WireError> {
        match f.number {
            1 => match dec_bytes(f.value) {
                Ok(b) => match crate::steammessages_publishedfile_steamclient::c_published_file_get_app_relationships_batched_response::PublishedFileAppRelationship::spec_decode(b) {
                    Ok(m) => Ok(SpecCPublishedFile_GetAppRelationshipsBatched_Response { relationships: v.relationships.push(m), ..v }),
                    Err(e) => Err(e),
                },
                Err(e) => Err(e),
            },
            _ => Ok(v),
        }
    }

    pub open spec fn apply_fn() -> spec_fn(SpecCPublishedFile_GetAppRelationshipsBatched_Response, SpecField) -> Result<SpecCPublishedFile_GetAppRelationshipsBatched_Response, WireError> {
        |v: SpecCPublishedFile_GetAppRelationshipsBatched_Response, f: SpecField| Self::spec_apply(v, f)
    }

    /// The message `bytes` makes of `v`: its records applied in order, or the error
    /// that stops the reading.
    pub open spec fn spec_merge(v: SpecCPublishedFile_GetAppRelationshipsBatched_Response, bytes: Seq<u8>) -> Result<SpecCPublishedFile_GetAppRelationshipsBatched_Response, WireError> {
        let (w, stop) = merge_run(v, bytes, Self::apply_fn());
        match stop {
            None => Ok(w),
            Some(e) => Err(e),
        }
    }

    #[verifier::opaque]
    pub open spec fn spec_decode(bytes: Seq<u8>) -> Result<SpecCPublishedFile_GetAppRelationshipsBatched_Response, WireError> {
        Self::spec_merge(Self::spec_default(), bytes)
    }

    /// This message with one record applied to it, or, when the record is refused,
    /// the message unchanged and the reason.
    fn applied(self, f: &Field) -> (r: Result<Self, (Self, WireError)>)
        ensures
            match Self::spec_apply(self@, f@) {
                Ok(v) => r matches Ok(m) && m@ == v,
                Err(e) => r matches Err((m, x)) && x == e && m@ == self@,
            },
    {
        match f.number {
            1 => match read_payload(&f.value) {
                Ok(b) => match crate::steammessages_publishedfile_steamclient::c_published_file_get_app_relationships_batched_response::PublishedFileAppRelationship::decode(b) {
                    Ok(x) => {
                        let mut m = self;
                        let ghost before = m.relationships@;
                        m.relationships.push(x);
                        assert(crate::steammessages_publishedfile_steamclient::c_published_file_get_app_relationships_batched_response::PublishedFileAppRelationship::view_all(m.relationships@) =~= crate::steammessages_publishedfile_steamclient::c_published_file_get_app_relationships_batched_response::PublishedFileAppRelationship::view_all(before).push(x@));
                        Ok(m)
                    },
                    Err(e) => Err((self, e)),
                },
                Err(e) => Err((self, e)),
            },
            _ => Ok(self),
        }
    }

    /// Reads the records `bytes` holds into this message, in order. When a record does
    /// not parse or is refused, the reading stops there: the message keeps what the
    /// records before it gave, and the error is returned.
    pub fn merge(&mut self, bytes: &[u8]) -> (r: Result<(), WireError>)
        ensures
            final(self)@ == merge_run(old(self)@, bytes@, Self::apply_fn()).0,
            r == match merge_run(old(self)@, bytes@, Self::apply_fn()).1 {
                None => Ok::<(), WireError>(()),
                Some(e) => Err::<(), WireError>(e),
            },
    {
        let ghost total = merge_run(self@, bytes@, Self::apply_fn());
        let mut cur = Self::default();
        std::mem::swap(&mut cur, self);
        let mut pos: usize = 0;
        assert(bytes@.skip(0) =~= bytes@);
        while pos < bytes.len()
            invariant
                pos <= bytes@.len(),
                total == merge_run(old(self)@, bytes@, Self::apply_fn()),
                merge_run(cur@, bytes@.skip(pos as int), Self::apply_fn()) == total,
            decreases bytes@.len() - pos,
        {
            let ghost s = bytes@.skip(pos as int);
            proof {
                lemma_merge_run_step(cur@, s, Self::apply_fn());
                lemma_parse_field_len(s);
            }
            match read_field(bytes, pos) {
                Ok((f, end)) => {
                    assert(bytes@.skip(end as int) =~= s.skip((end - pos) as int));
                    match cur.applied(&f) {
                        Ok(m) => {
                            cur = m;
                        },
                        Err((m, e)) => {
                            *self = m;
                            return Err(e);
                        },
                    }
                    pos = end;
                },
                Err(e) => {
                    *self = cur;
                    return Err(e);
                },
            }
        }
        assert(bytes@.skip(pos as int) =~= Seq::<u8>::empty());
        proof {
            lemma_merge_run_empty(cur@, Self::apply_fn());
        }
        *self = cur;
        Ok(())
    }

    /// Decodes a message from its encoding.
    pub fn decode(bytes: &[u8]) -> (r: Result<Self, WireError>)
        ensures
            match Self::spec_decode(bytes@) {
                Ok(v) => r matches Ok(m) && m@ == v,
                Err(e) => r matches Err(x) && x == e,
            },
    {
        proof {
            reveal(CPublishedFile_GetAppRelationshipsBatched_Response::spec_decode);
        }
        let mut m = Self::default();
        match m.merge(bytes) {
            Ok(()) => Ok(m),
            Err(e) => Err(e),
        }
    }

    /// The encoding of this message.
    pub fn encode_to_vec(&self) -> (r: Vec<u8>)
        ensures
            r@ == Self::spec_encode(self@),
    {
        let enc_relationships = crate::steammessages_publishedfile_steamclient::c_published_file_get_app_relationships_batched_response::PublishedFileAppRelationship::encode_all(&self.relationships);
        let ghost v = self@;
        let mut out: Vec<u8> = Vec::new();
        let ghost p0 = Seq::<SpecField>::empty();
        put_rep_bytes(&mut out, 1, &enc_relationships);
        let ghost p1 = p0 + rep_bytes(1, crate::steammessages_publishedfile_steamclient::c_published_file_get_app_relationships_batched_response::PublishedFileAppRelationship::spec_encode_all(v.relationships));
        proof {
            lemma_fields_bytes_concat(p0, rep_bytes(1, crate::steammessages_publishedfile_steamclient::c_published_file_get_app_relationships_batched_response::PublishedFileAppRelationship::spec_encode_all(v.relationships)));
        }
        proof {
            reveal(CPublishedFile_GetAppRelationshipsBatched_Response::spec_encode);
        }
        assert(p1 == Self::spec_fields(v));
        out
    }

    /// Appends the encoding of this message to `out`.
    pub fn encode_raw(&self, out: &mut Vec<u8>)
        ensures
            final(out)@ == old(out)@ + Self::spec_encode(self@),
    {
        let mut b = self.encode_to_vec();
        out.append(&mut b);
    }

    /// The first `k` fields of `v`, the others as a fresh message has them.
    #[verifier::opaque]
    pub open spec fn spec_prefix(v: SpecCPublishedFile_GetAppRelationshipsBatched_Response, k: int) -> SpecCPublishedFile_GetAppRelationshipsBatched_Response {
        SpecCPublishedFile_GetAppRelationshipsBatched_Response {
            relationships: if 1 <= k { v.relationships } else { Seq::empty() },
        }
    }

    /// Reading field 1 back, after the fields before it.
    proof fn lemma_field_relationships(v: SpecCPublishedFile_GetAppRelationshipsBatched_Response)
        requires
            fields_wf(rep_bytes(1, crate::steammessages_publishedfile_steamclient::c_published_file_get_app_relationships_batched_response::PublishedFileAppRelationship::spec_encode_all(v.relationships))),
        ensures
            fold_fields(Self::spec_prefix(v, 0), rep_bytes(1, crate::steammessages_publishedfile_steamclient::c_published_file_get_app_relationships_batched_response::PublishedFileAppRelationship::spec_encode_all(v.relationships)), Self::apply_fn())
                == Ok::<SpecCPublishedFile_GetAppRelationshipsBatched_Response, WireError>(Self::spec_prefix(v, 1)),
    {
        reveal(CPublishedFile_GetAppRelationshipsBatched_Response::spec_prefix);
        reveal(rep_bytes);
        reveal(fields_wf);
        let apply = Self::apply_fn();
        let s = Self::spec_prefix(v, 0);
        let l = rep_bytes(1, crate::steammessages_publishedfile_steamclient::c_published_file_get_app_relationships_batched_response::PublishedFileAppRelationship::spec_encode_all(v.relationships));
        let xs = v.relationships;
        let st = Seq::new((xs.len() + 1) as nat, |j: int| SpecCPublishedFile_GetAppRelationshipsBatched_Response { relationships: xs.take(j), ..s });
        assert forall|j: int| 0 <= j < l.len() implies #[trigger] apply(st[j], l[j]) == Ok::<SpecCPublishedFile_GetAppRelationshipsBatched_Response, WireError>(st[j + 1]) by {
            assert(field_wf(l[j]));
            crate::steammessages_publishedfile_steamclient::c_published_file_get_app_relationships_batched_response::PublishedFileAppRelationship::lemma_decode_encode(xs[j]);
            assert(xs.take(j).push(xs[j]) =~= xs.take(j + 1));
        }
        lemma_fold_chain(l, st, apply);
        assert(xs.take(0) =~= Seq::<crate::steammessages_publishedfile_steamclient::c_published_file_get_app_relationships_batched_response::SpecPublishedFileAppRelationship>::empty());
        assert(xs.take(xs.len() as int) =~= xs);
        assert(st[0] == s);
        assert(st[xs.len() as int] == Self::spec_prefix(v, 1));
    }

    /// Whether this message declares field number `n`.
    pub open spec fn declares(n: u32) -> bool {
        n == 1
    }

    /// A record with a number this message does not declare is passed over: well-formed
    /// bytes decode to the same message with such a record after them as without it.
    pub proof fn lemma_unknown_field(bytes: Seq<u8>, f: SpecField)
        requires
            parse_fields(bytes) is Ok,
            field_wf(f),
            !Self::declares(f.number),
        ensures
            Self::spec_decode(bytes + field_bytes(f)) == Self::spec_decode(bytes),
    {
        reveal(CPublishedFile_GetAppRelationshipsBatched_Response::spec_decode);
        lemma_parse_fields_append(bytes, f);
        let fs = parse_fields(bytes).unwrap();
        let apply = Self::apply_fn();
        lemma_fold_concat(Self::spec_default(), fs, seq![f], apply);
        assert(fs.push(f) =~= fs + seq![f]);
        if let Ok(w) = fold_fields(Self::spec_default(), fs, apply) {
            lemma_fold_single(w, f, apply);
        }
        lemma_merge_run_fold(Self::spec_default(), bytes, apply);
        lemma_merge_run_fold(Self::spec_default(), bytes + field_bytes(f), apply);
    }

    /// Decoding the encoding of a message gives the message back.
    pub proof fn lemma_decode_encode(v: SpecCPublishedFile_GetAppRelationshipsBatched_Response)
        requires
            Self::spec_encode(v).len() <= u64::MAX,
        ensures
            Self::spec_decode(Self::spec_encode(v)) == Ok::<SpecCPublishedFile_GetAppRelationshipsBatched_Response, WireError>(v),
    {
        let apply = Self::apply_fn();
        let d = Self::spec_default();
        let p0 = Seq::<SpecField>::empty();
        let l1 = rep_bytes(1, crate::steammessages_publishedfile_steamclient::c_published_file_get_app_relationships_batched_response::PublishedFileAppRelationship::spec_encode_all(v.relationships));
        let p1 = p0 + l1;
        assert(parse_fields(Self::spec_encode(v)) == Ok::<Seq<SpecField>, WireError>(p1) && fields_wf(l1)) by {
            reveal(CPublishedFile_GetAppRelationshipsBatched_Response::spec_encode);
            assert(numbers_ok(p0) && fields_wf(p0)) by {
                reveal(numbers_ok);
                reveal(fields_wf);
            }
            lemma_rep_bytes_numbered(1, crate::steammessages_publishedfile_steamclient::c_published_file_get_app_relationships_batched_response::PublishedFileAppRelationship::spec_encode_all(v.relationships));
            lemma_fields_wf_concat(p0, l1);
            assert(p1 == Self::spec_fields(v));
            lemma_fields_wf_from_len(p1);
            lemma_fields_roundtrip(p1);
        }
        assert(Self::spec_prefix(v, 0) == d) by {
            reveal(CPublishedFile_GetAppRelationshipsBatched_Response::spec_prefix);
        }
        lemma_fold_empty(d, apply);
        lemma_fold_concat(d, p0, l1, apply);
        Self::lemma_field_relationships(v);
        assert(Self::spec_prefix(v, 1) == v) by {
            reveal(CPublishedFile_GetAppRelationshipsBatched_Response::spec_prefix);
        }
        lemma_merge_run_fold(d, Self::spec_encode(v), apply);
        assert(Self::spec_decode(Self::spec_encode(v)) == Ok::<SpecCPublishedFile_GetAppRelationshipsBatched_Response, WireError>(v)) by {
            reveal(CPublishedFile_GetAppRelationshipsBatched_Response::spec_decode);
        }
    }
}

/// `CPublishedFile_StartPlaytimeTracking_Request`, as Valve's schema declares it.
#[derive(Debug, Clone, PartialEq)]
pub struct CPublishedFile_StartPlaytimeTracking_Request {
    /// Field 1.
    pub appid: Option<u32>,
    /// Field 2.
    pub publishedfileids: Vec<u64>,
}

/// What a `CPublishedFile_StartPlaytimeTracking_Request` holds, as mathematical values.
#[verifier::ext_equal]
pub struct SpecCPublishedFile_StartPlaytimeTracking_Request {
    pub appid: Option<u32>,
    pub publishedfileids: Seq<u64>,
}

impl View for CPublishedFile_StartPlaytimeTracking_Request {
    type V = SpecCPublishedFile_StartPlaytimeTracking_Request;

    open spec fn view(&self) -> SpecCPublishedFile_StartPlaytimeTracking_Request {
        SpecCPublishedFile_StartPlaytimeTracking_Request {
            appid: self.appid,
            publishedfileids: self.publishedfileids@,
        }
    }
}

impl Default for CPublishedFile_StartPlaytimeTracking_Request {
    fn default() -> (r: Self)
        ensures
            r@ == CPublishedFile_StartPlaytimeTracking_Request::spec_default(),
    {
        CPublishedFile_StartPlaytimeTracking_Request {
            appid: None,
            publishedfileids: Vec::new(),
        }
    }
}

impl CPublishedFile_StartPlaytimeTracking_Request {
    pub open spec fn spec_default() -> SpecCPublishedFile_StartPlaytimeTracking_Request {
        SpecCPublishedFile_StartPlaytimeTracking_Request {
            appid: None,
            publishedfileids: Seq::empty(),
        }
    }

    /// The records a `CPublishedFile_StartPlaytimeTracking_Request` is written as, in field order.
    pub open spec fn spec_fields(v: SpecCPublishedFile_StartPlaytimeTracking_Request) -> Seq<SpecField> {
        Seq::<SpecField>::empty()
            + opt_u32(1, v.appid)
            + rep_u64(2, v.publishedfileids)
    }

    #[verifier::opaque]
    pub open spec fn spec_encode(v: SpecCPublishedFile_StartPlaytimeTracking_Request) -> Seq<u8> {
        fields_bytes(Self::spec_fields(v))
    }

    /// What one record does to the message: a declared number sets or extends its
    /// field, any other number is left alone.
    pub open spec fn spec_apply(v: SpecCPublishedFile_StartPlaytimeTracking_Request, f: SpecField) -> Result<SpecCPublishedFile_StartPlaytimeTracking_Request, WireError> {
        match f.number {
            1 => match dec_u32(f.value) {
                Ok(x) => Ok(SpecCPublishedFile_StartPlaytimeTracking_Request { appid: Some(x), ..v }),
                Err(e) => Err(e),
            },
            2 => match dec_packed_varint(f.value) {
                Ok(xs) => Ok(SpecCPublishedFile_StartPlaytimeTracking_Request { publishedfileids: v.publishedfileids + xs, ..v }),
                Err(e) => Err(e),
            },
            _ => Ok(v),
        }
    }

    pub open spec fn apply_fn() -> spec_fn(SpecCPublishedFile_StartPlaytimeTracking_Request, SpecField) -> Result<SpecCPublishedFile_StartPlaytimeTracking_Request, WireError> {
        |v: SpecCPublishedFile_StartPlaytimeTracking_Request, f: SpecField| Self::spec_apply(v, f)
    }

    /// The message `bytes` makes of `v`: its records applied in order, or the error
    /// that stops the reading.
    pub open spec fn spec_merge(v: SpecCPublishedFile_StartPlaytimeTracking_Request, bytes: Seq<u8>) -> Result<SpecCPublishedFile_StartPlaytimeTracking_Request, WireError> {
        let (w, stop) = merge_run(v, bytes, Self::apply_fn());
        match stop {
            None => Ok(w),
            Some(e) => Err(e),
        }
    }

    #[verifier::opaque]
    pub open spec fn spec_decode(bytes: Seq<u8>) -> Result<SpecCPublishedFile_StartPlaytimeTracking_Request, WireError> {
        Self::spec_merge(Self::spec_default(), bytes)
    }

    /// This message with one record applied to it, or, when the record is refused,
    /// the message unchanged and the reason.
    fn applied(self, f: &Field) -> (r: Result<Self, (Self, WireError)>)
        ensures
            match Self::spec_apply(self@, f@) {
                Ok(v) => r matches Ok(m) && m@ == v,
                Err(e) => r matches Err((m, x)) && x == e && m@ == self@,
            },
    {
        match f.number {
            1 => match read_u32(&f.value) {
                Ok(x) => Ok(Self { appid: Some(x), ..self }),
                Err(e) => Err((self, e)),
            },
            2 => match read_packed_varints(&f.value) {
                Ok(xs) => {
                    let mut m = self;
                    let mut xs = xs;
                    m.publishedfileids.append(&mut xs);
                    Ok(m)
                },
                Err(e) => Err((self, e)),
            },
            _ => Ok(self),
        }
    }

    /// Reads the records `bytes` holds into this message, in order. When a record does
    /// not parse or is refused, the reading stops there: the message keeps what the
    /// records before it gave, and the error is returned.
    pub fn merge(&mut self, bytes: &[u8]) -> (r: Result<(), WireError>)
        ensures
            final(self)@ == merge_run(old(self)@, bytes@, Self::apply_fn()).0,
            r == match merge_run(old(self)@, bytes@, Self::apply_fn()).1 {
                None => Ok::<(), WireError>(()),
                Some(e) => Err::<(), WireError>(e),
            },
    {
        let ghost total = merge_run(self@, bytes@, Self::apply_fn());
        let mut cur = Self::default();
        std::mem::swap(&mut cur, self);
        let mut pos: usize = 0;
        assert(bytes@.skip(0) =~= bytes@);
        while pos < bytes.len()
            invariant
                pos <= bytes@.len(),
                total == merge_run(old(self)@, bytes@, Self::apply_fn()),
                merge_run(cur@, bytes@.skip(pos as int), Self::apply_fn()) == total,
            decreases bytes@.len() - pos,
        {
            let ghost s = bytes@.skip(pos as int);
            proof {
                lemma_merge_run_step(cur@, s, Self::apply_fn());
                lemma_parse_field_len(s);
            }
            match read_field(bytes, pos) {
                Ok((f, end)) => {
                    assert(bytes@.skip(end as int) =~= s.skip((end - pos) as int));
                    match cur.applied(&f) {
                        Ok(m) => {
                            cur = m;
                        },
                        Err((m, e)) => {
                            *self = m;
                            return Err(e);
                        },
                    }
                    pos = end;
                },
                Err(e) => {
                    *self = cur;
                    return Err(e);
                },
            }
        }
        assert(bytes@.skip(pos as int) =~= Seq::<u8>::empty());
        proof {
            lemma_merge_run_empty(cur@, Self::apply_fn());
        }
        *self = cur;
        Ok(())
    }

    /// Decodes a message from its encoding.
    pub fn decode(bytes: &[u8]) -> (r: Result<Self, WireError>)
        ensures
            match Self::spec_decode(bytes@) {
                Ok(v) => r matches Ok(m) && m@ == v,
                Err(e) => r matches Err(x) && x == e,
            },
    {
        proof {
            reveal(CPublishedFile_StartPlaytimeTracking_Request::spec_decode);
        }
        let mut m = Self::default();
        match m.merge(bytes) {
            Ok(()) => Ok(m),
            Err(e) => Err(e),
        }
    }

    /// The encoding of this message.
    pub fn encode_to_vec(&self) -> (r: Vec<u8>)
        ensures
            r@ == Self::spec_encode(self@),
    {
        let ghost v = self@;
        let mut out: Vec<u8> = Vec::new();
        let ghost p0 = Seq::<SpecField>::empty();
        put_opt_u32(&mut out, 1, self.appid);
        let ghost p1 = p0 + opt_u32(1, v.appid);
        proof {
            lemma_fields_bytes_concat(p0, opt_u32(1, v.appid));
        }
        put_rep_u64(&mut out, 2, &self.publishedfileids);
        let ghost p2 = p1 + rep_u64(2, v.publishedfileids);
        proof {
            lemma_fields_bytes_concat(p1, rep_u64(2, v.publishedfileids));
        }
        proof {
            reveal(CPublishedFile_StartPlaytimeTracking_Request::spec_encode);
        }
        assert(p2 == Self::spec_fields(v));
        out
    }

    /// Appends the encoding of this message to `out`.
    pub fn encode_raw(&self, out: &mut Vec<u8>)
        ensures
            final(out)@ == old(out)@ + Self::spec_encode(self@),
    {
        let mut b = self.encode_to_vec();
        out.append(&mut b);
    }

    /// The first `k` fields of `v`, the others as a fresh message has them.
    #[verifier::opaque]
    pub open spec fn spec_prefix(v: SpecCPublishedFile_StartPlaytimeTracking_Request, k: int) -> SpecCPublishedFile_StartPlaytimeTracking_Request {
        SpecCPublishedFile_StartPlaytimeTracking_Request {
            appid: if 1 <= k { v.appid } else { None },
            publishedfileids: if 2 <= k { v.publishedfileids } else { Seq::empty() },
        }
    }

    /// Reading field 1 back, after the fields before it.
    proof fn lemma_field_appid(v: SpecCPublishedFile_StartPlaytimeTracking_Request)
        ensures
            fold_fields(Self::spec_prefix(v, 0), opt_u32(1, v.appid), Self::apply_fn())
                == Ok::<SpecCPublishedFile_StartPlaytimeTracking_Request, WireError>(Self::spec_prefix(v, 1)),
    {
        reveal(CPublishedFile_StartPlaytimeTracking_Request::spec_prefix);
        reveal(opt_u32);
        let apply = Self::apply_fn();
        let s = Self::spec_prefix(v, 0);
        lemma_fold_opt(s, 1, match v.appid { Some(x) => Some(enc_u32(x)), None => None }, apply);
        if let Some(x) = v.appid {
            lemma_u32_roundtrip(x);
        }
        assert(SpecCPublishedFile_StartPlaytimeTracking_Request { appid: v.appid, ..s } == Self::spec_prefix(v, 1));
    }

    /// Reading field 2 back, after the fields before it.
    proof fn lemma_field_publishedfileids(v: SpecCPublishedFile_StartPlaytimeTracking_Request)
        ensures
            fold_fields(Self::spec_prefix(v, 1), rep_u64(2, v.publishedfileids), Self::apply_fn())
                == Ok::<SpecCPublishedFile_StartPlaytimeTracking_Request, WireError>(Self::spec_prefix(v, 2)),
    {
        reveal(CPublishedFile_StartPlaytimeTracking_Request::spec_prefix);
        reveal(rep_u64);
        let apply = Self::apply_fn();
        let s = Self::spec_prefix(v, 1);
        let l = rep_u64(2, v.publishedfileids);
        let xs = v.publishedfileids;
        let st = Seq::new((xs.len() + 1) as nat, |j: int| SpecCPublishedFile_StartPlaytimeTracking_Request { publishedfileids: xs.take(j), ..s });
        assert forall|j: int| 0 <= j < l.len() implies #[trigger] apply(st[j], l[j]) == Ok::<SpecCPublishedFile_StartPlaytimeTracking_Request, WireError>(st[j + 1]) by {
            lemma_u64_roundtrip(xs[j]);
            assert(xs.take(j) + seq![xs[j]] =~= xs.take(j + 1));
        }
        lemma_fold_chain(l, st, apply);
        assert(xs.take(0) =~= Seq::<u64>::empty());
        assert(xs.take(xs.len() as int) =~= xs);
        assert(st[0] == s);
        assert(st[xs.len() as int] == Self::spec_prefix(v, 2));
    }

    /// Whether this message declares field number `n`.
    pub open spec fn declares(n: u32) -> bool {
        n == 1 || n == 2
    }

    /// A record with a number this message does not declare is passed over: well-formed
    /// bytes decode to the same message with such a record after them as without it.
    pub proof fn lemma_unknown_field(bytes: Seq<u8>, f: SpecField)
        requires
            parse_fields(bytes) is Ok,
            field_wf(f),
            !Self::declares(f.number),
        ensures
            Self::spec_decode(bytes + field_bytes(f)) == Self::spec_decode(bytes),
    {
        reveal(CPublishedFile_StartPlaytimeTracking_Request::spec_decode);
        lemma_parse_fields_append(bytes, f);
        let fs = parse_fields(bytes).unwrap();
        let apply = Self::apply_fn();
        lemma_fold_concat(Self::spec_default(), fs, seq![f], apply);
        assert(fs.push(f) =~= fs + seq![f]);
        if let Ok(w) = fold_fields(Self::spec_default(), fs, apply) {
            lemma_fold_single(w, f, apply);
        }
        lemma_merge_run_fold(Self::spec_default(), bytes, apply);
        lemma_merge_run_fold(Self::spec_default(), bytes + field_bytes(f), apply);
    }

    /// Decoding the encoding of a message gives the message back.
    pub proof fn lemma_decode_encode(v: SpecCPublishedFile_StartPlaytimeTracking_Request)
        requires
            Self::spec_encode(v).len() <= u64::MAX,
        ensures
            Self::spec_decode(Self::spec_encode(v)) == Ok::<SpecCPublishedFile_StartPlaytimeTracking_Request, WireError>(v),
    {
        let apply = Self::apply_fn();
        let d = Self::spec_default();
        let p0 = Seq::<SpecField>::empty();
        let l1 = opt_u32(1, v.appid);
        let p1 = p0 + l1;
        let l2 = rep_u64(2, v.publishedfileids);
        let p2 = p1 + l2;
        assert(parse_fields(Self::spec_encode(v)) == Ok::<Seq<SpecField>, WireError>(p2)) by {
            reveal(CPublishedFile_StartPlaytimeTracking_Request::spec_encode);
            assert(numbers_ok(p0) && fields_wf(p0)) by {
                reveal(numbers_ok);
                reveal(fields_wf);
            }
            lemma_opt_u32_numbered(1, v.appid);
            lemma_fields_wf_concat(p0, l1);
            lemma_rep_u64_numbered(2, v.publishedfileids);
            lemma_fields_wf_concat(p1, l2);
            assert(p2 == Self::spec_fields(v));
            lemma_fields_wf_from_len(p2);
            lemma_fields_roundtrip(p2);
        }
        assert(Self::spec_prefix(v, 0) == d) by {
            reveal(CPublishedFile_StartPlaytimeTracking_Request::spec_prefix);
        }
        lemma_fold_empty(d, apply);
        lemma_fold_concat(d, p0, l1, apply);
        Self::lemma_field_appid(v);
        lemma_fold_concat(d, p1, l2, apply);
        Self::lemma_field_publishedfileids(v);
        assert(Self::spec_prefix(v, 2) == v) by {
            reveal(CPublishedFile_StartPlaytimeTracking_Request::spec_prefix);
        }
        lemma_merge_run_fold(d, Self::spec_encode(v), apply);
        assert(Self::spec_decode(Self::spec_encode(v)) == Ok::<SpecCPublishedFile_StartPlaytimeTracking_Request, WireError>(v)) by {
            reveal(CPublishedFile_StartPlaytimeTracking_Request::spec_decode);
        }
    }
}

/// `CPublishedFile_StartPlaytimeTracking_Response`, as Valve's schema declares it.
#[derive(Debug, Clone, PartialEq)]
pub struct CPublishedFile_StartPlaytimeTracking_Response {}

/// What a `CPublishedFile_StartPlaytimeTracking_Response` holds, as mathematical values.
#[verifier::ext_equal]
pub struct SpecCPublishedFile_StartPlaytimeTracking_Response {}

impl View for CPublishedFile_StartPlaytimeTracking_Response {
    type V = SpecCPublishedFile_StartPlaytimeTracking_Response;

    open spec fn view(&self) -> SpecCPublishedFile_StartPlaytimeTracking_Response {
        SpecCPublishedFile_StartPlaytimeTracking_Response {}
    }
}

impl Default for CPublishedFile_StartPlaytimeTracking_Response {
    fn default() -> (r: Self)
        ensures
            r@ == CPublishedFile_StartPlaytimeTracking_Response::spec_default(),
    {
        CPublishedFile_StartPlaytimeTracking_Response {}
    }
}

impl CPublishedFile_StartPlaytimeTracking_Response {
    pub open spec fn spec_default() -> SpecCPublishedFile_StartPlaytimeTracking_Response {
        SpecCPublishedFile_StartPlaytimeTracking_Response {}
    }

    /// The records a `CPublishedFile_StartPlaytimeTracking_Response` is written as, in field order.
    pub open spec fn spec_fields(v: SpecCPublishedFile_StartPlaytimeTracking_Response) -> Seq<SpecField> {
        Seq::<SpecField>::empty()
    }

    #[verifier::opaque]
    pub open spec fn spec_encode(v: SpecCPublishedFile_StartPlaytimeTracking_Response) -> Seq<u8> {
        fields_bytes(Self::spec_fields(v))
    }

    /// What one record does to the message: a declared number sets or extends its
    /// field, any other number is left alone.
    pub open spec fn spec_apply(v: SpecCPublishedFile_StartPlaytimeTracking_Response, f: SpecField) -> Result<SpecCPublishedFile_StartPlaytimeTracking_Response, WireError> {
        match f.number {
            _ => Ok(v),
        }
    }

    pub open spec fn apply_fn() -> spec_fn(SpecCPublishedFile_StartPlaytimeTracking_Response, SpecField) -> Result<SpecCPublishedFile_StartPlaytimeTracking_Response, WireError> {
        |v: SpecCPublishedFile_StartPlaytimeTracking_Response, f: SpecField| Self::spec_apply(v, f)
    }

    /// The message `bytes` makes of `v`: its records applied in order, or the error
    /// that stops the reading.
    pub open spec fn spec_merge(v: SpecCPublishedFile_StartPlaytimeTracking_Response, bytes: Seq<u8>) -> Result<SpecCPublishedFile_StartPlaytimeTracking_Response, WireError> {
        let (w, stop) = merge_run(v, bytes, Self::apply_fn());
        match stop {
            None => Ok(w),
            Some(e) => Err(e),
        }
    }

    #[verifier::opaque]
    pub open spec fn spec_decode(bytes: Seq<u8>) -> Result<SpecCPublishedFile_StartPlaytimeTracking_Response, WireError> {
        Self::spec_merge(Self::spec_default(), bytes)
    }

    /// This message with one record applied to it, or, when the record is refused,
    /// the message unchanged and the reason.
    fn applied(self, f: &Field) -> (r: Result<Self, (Self, WireError)>)
        ensures
            match Self::spec_apply(self@, f@) {
                Ok(v) => r matches Ok(m) && m@ == v,
                Err(e) => r matches Err((m, x)) && x == e && m@ == self@,
            },
    {
        match f.number {
            _ => Ok(self),
        }
    }

    /// Reads the records `bytes` holds into this message, in order. When a record does
    /// not parse or is refused, the reading stops there: the message keeps what the
    /// records before it gave, and the error is returned.
    pub fn merge(&mut self, bytes: &[u8]) -> (r: Result<(), WireError>)
        ensures
            final(self)@ == merge_run(old(self)@, bytes@, Self::apply_fn()).0,
            r == match merge_run(old(self)@, bytes@, Self::apply_fn()).1 {
                None => Ok::<(), WireError>(()),
                Some(e) => Err::<(), WireError>(e),
            },
    {
        let ghost total = merge_run(self@, bytes@, Self::apply_fn());
        let mut cur = Self::default();
        std::mem::swap(&mut cur, self);
        let mut pos: usize = 0;
        assert(bytes@.skip(0) =~= bytes@);
        while pos < bytes.len()
            invariant
                pos <= bytes@.len(),
                total == merge_run(old(self)@, bytes@, Self::apply_fn()),
                merge_run(cur@, bytes@.skip(pos as int), Self::apply_fn()) == total,
            decreases bytes@.len() - pos,
        {
            let ghost s = bytes@.skip(pos as int);
            proof {
                lemma_merge_run_step(cur@, s, Self::apply_fn());
                lemma_parse_field_len(s);
            }
            match read_field(bytes, pos) {
                Ok((f, end)) => {
                    assert(bytes@.skip(end as int) =~= s.skip((end - pos) as int));
                    match cur.applied(&f) {
                        Ok(m) => {
                            cur = m;
                        },
                        Err((m, e)) => {
                            *self = m;
                            return Err(e);
                        },
                    }
                    pos = end;
                },
                Err(e) => {
                    *self = cur;
                    return Err(e);
                },
            }
        }
        assert(bytes@.skip(pos as int) =~= Seq::<u8>::empty());
        proof {
            lemma_merge_run_empty(cur@, Self::apply_fn());
        }
        *self = cur;
        Ok(())
    }

    /// Decodes a message from its encoding.
    pub fn decode(bytes: &[u8]) -> (r: Result<Self, WireError>)
        ensures
            match Self::spec_decode(bytes@) {
                Ok(v) => r matches Ok(m) && m@ == v,
                Err(e) => r matches Err(x) && x == e,
            },
    {
        proof {
            reveal(CPublishedFile_StartPlaytimeTracking_Response::spec_decode);
        }
        let mut m = Self::default();
        match m.merge(bytes) {
            Ok(()) => Ok(m),
            Err(e) => Err(e),
        }
    }

    /// The encoding of this message.
    pub fn encode_to_vec(&self) -> (r: Vec<u8>)
        ensures
            r@ == Self::spec_encode(self@),
    {
        let ghost v = self@;
        let mut out: Vec<u8> = Vec::new();
        let ghost p0 = Seq::<SpecField>::empty();
        proof {
            reveal(CPublishedFile_StartPlaytimeTracking_Response::spec_encode);
        }
        assert(p0 == Self::spec_fields(v));
        assert(out@ =~= fields_bytes(p0));
        out
    }

    /// Appends the encoding of this message to `out`.
    pub fn encode_raw(&self, out: &mut Vec<u8>)
        ensures
            final(out)@ == old(out)@ + Self::spec_encode(self@),
    {
        let mut b = self.encode_to_vec();
        out.append(&mut b);
    }

    /// The first `k` fields of `v`, the others as a fresh message has them.
    #[verifier::opaque]
    pub open spec fn spec_prefix(v: SpecCPublishedFile_StartPlaytimeTracking_Response, k: int) -> SpecCPublishedFile_StartPlaytimeTracking_Response {
        SpecCPublishedFile_StartPlaytimeTracking_Response {}
    }

    /// Whether this message declares field number `n`.
    pub open spec fn declares(n: u32) -> bool {
        false
    }

    /// A record with a number this message does not declare is passed over: well-formed
    /// bytes decode to the same message with such a record after them as without it.
    pub proof fn lemma_unknown_field(bytes: Seq<u8>, f: SpecField)
        requires
            parse_fields(bytes) is Ok,
            field_wf(f),
            !Self::declares(f.number),
        ensures
            Self::spec_decode(bytes + field_bytes(f)) == Self::spec_decode(bytes),
    {
        reveal(CPublishedFile_StartPlaytimeTracking_Response::spec_decode);
        lemma_parse_fields_append(bytes, f);
        let fs = parse_fields(bytes).unwrap();
        let apply = Self::apply_fn();
        lemma_fold_concat(Self::spec_default(), fs, seq![f], apply);
        assert(fs.push(f) =~= fs + seq![f]);
        if let Ok(w) = fold_fields(Self::spec_default(), fs, apply) {
            lemma_fold_single(w, f, apply);
        }
        lemma_merge_run_fold(Self::spec_default(), bytes, apply);
        lemma_merge_run_fold(Self::spec_default(), bytes + field_bytes(f), apply);
    }

    /// Decoding the encoding of a message gives the message back.
    pub proof fn lemma_decode_encode(v: SpecCPublishedFile_StartPlaytimeTracking_Response)
        requires
            Self::spec_encode(v).len() <= u64::MAX,
        ensures
            Self::spec_decode(Self::spec_encode(v)) == Ok::<SpecCPublishedFile_StartPlaytimeTracking_Response, WireError>(v),
    {
        let apply = Self::apply_fn();
        let d = Self::spec_default();
        let p0 = Seq::<SpecField>::empty();
        assert(parse_fields(Self::spec_encode(v)) == Ok::<Seq<SpecField>, WireError>(p0)) by {
            reveal(CPublishedFile_StartPlaytimeTracking_Response::spec_encode);
            assert(numbers_ok(p0) && fields_wf(p0)) by {
                reveal(numbers_ok);
                reveal(fields_wf);
            }
            assert(p0 == Self::spec_fields(v));
            lemma_fields_wf_from_len(p0);
            lemma_fields_roundtrip(p0);
        }
        assert(Self::spec_prefix(v, 0) == d) by {
            reveal(CPublishedFile_StartPlaytimeTracking_Response::spec_prefix);
        }
        lemma_fold_empty(d, apply);
        assert(Self::spec_prefix(v, 0) == v) by {
            reveal(CPublishedFile_StartPlaytimeTracking_Response::spec_prefix);
        }
        lemma_merge_run_fold(d, Self::spec_encode(v), apply);
        assert(Self::spec_decode(Self::spec_encode(v)) == Ok::<SpecCPublishedFile_StartPlaytimeTracking_Response, WireError>(v)) by {
            reveal(CPublishedFile_StartPlaytimeTracking_Response::spec_decode);
        }
    }
}

/// `CPublishedFile_StopPlaytimeTracking_Request`, as Valve's schema declares it.
#[derive(Debug, Clone, PartialEq)]
pub struct CPublishedFile_StopPlaytimeTracking_Request {
    /// Field 1.
    pub appid: Option<u32>,
    /// Field 2.
    pub publishedfileids: Vec<u64>,
}

/// What a `CPublishedFile_StopPlaytimeTracking_Request` holds, as mathematical values.
#[verifier::ext_equal]
pub struct SpecCPublishedFile_StopPlaytimeTracking_Request {
    pub appid: Option<u32>,
    pub publishedfileids: Seq<u64>,
}

impl View for CPublishedFile_StopPlaytimeTracking_Request {
    type V = SpecCPublishedFile_StopPlaytimeTracking_Request;

    open spec fn view(&self) -> SpecCPublishedFile_StopPlaytimeTracking_Request {
        SpecCPublishedFile_StopPlaytimeTracking_Request {
            appid: self.appid,
            publishedfileids: self.publishedfileids@,
        }
    }
}

impl Default for CPublishedFile_StopPlaytimeTracking_Request {
    fn default() -> (r: Self)
        ensures
            r@ == CPublishedFile_StopPlaytimeTracking_Request::spec_default(),
    {
        CPublishedFile_StopPlaytimeTracking_Request {
            appid: None,
            publishedfileids: Vec::new(),
        }
    }
}

impl CPublishedFile_StopPlaytimeTracking_Request {
    pub open spec fn spec_default() -> SpecCPublishedFile_StopPlaytimeTracking_Request {
        SpecCPublishedFile_StopPlaytimeTracking_Request {
            appid: None,
            publishedfileids: Seq::empty(),
        }
    }

    /// The records a `CPublishedFile_StopPlaytimeTracking_Request` is written as, in field order.
    pub open spec fn spec_fields(v: SpecCPublishedFile_StopPlaytimeTracking_Request) -> Seq<SpecField> {
        Seq::<SpecField>::empty()
            + opt_u32(1, v.appid)
            + rep_u64(2, v.publishedfileids)
    }

    #[verifier::opaque]
    pub open spec fn spec_encode(v: SpecCPublishedFile_StopPlaytimeTracking_Request) -> Seq<u8> {
        fields_bytes(Self::spec_fields(v))
    }

    /// What one record does to the message: a declared number sets or extends its
    /// field, any other number is left alone.
    pub open spec fn spec_apply(v: SpecCPublishedFile_StopPlaytimeTracking_Request, f: SpecField) -> Result<SpecCPublishedFile_StopPlaytimeTracking_Request, WireError> {
        match f.number {
            1 => match dec_u32(f.value) {
                Ok(x) => Ok(SpecCPublishedFile_StopPlaytimeTracking_Request { appid: Some(x), ..v }),
                Err(e) => Err(e),
            },
            2 => match dec_packed_varint(f.value) {
                Ok(xs) => Ok(SpecCPublishedFile_StopPlaytimeTracking_Request { publishedfileids: v.publishedfileids + xs, ..v }),
                Err(e) => Err(e),
            },
            _ => Ok(v),
        }
    }

    pub open spec fn apply_fn() -> spec_fn(SpecCPublishedFile_StopPlaytimeTracking_Request, SpecField) -> Result<SpecCPublishedFile_StopPlaytimeTracking_Request, WireError> {
        |v: SpecCPublishedFile_StopPlaytimeTracking_Request, f: SpecField| Self::spec_apply(v, f)
    }

    /// The message `bytes` makes of `v`: its records applied in order, or the error
    /// that stops the reading.
    pub open spec fn spec_merge(v: SpecCPublishedFile_StopPlaytimeTracking_Request, bytes: Seq<u8>) -> Result<SpecCPublishedFile_StopPlaytimeTracking_Request, WireError> {
        let (w, stop) = merge_run(v, bytes, Self::apply_fn());
        match stop {
            None => Ok(w),
            Some(e) => Err(e),
        }
    }

    #[verifier::opaque]
    pub open spec fn spec_decode(bytes: Seq<u8>) -> Result<SpecCPublishedFile_StopPlaytimeTracking_Request, WireError> {
        Self::spec_merge(Self::spec_default(), bytes)
    }

    /// This message with one record applied to it, or, when the record is refused,
    /// the message unchanged and the reason.
    fn applied(self, f: &Field) -> (r: Result<Self, (Self, WireError)>)
        ensures
            match Self::spec_apply(self@, f@) {
                Ok(v) => r matches Ok(m) && m@ == v,
                Err(e) => r matches Err((m, x)) && x == e && m@ == self@,
            },
    {
        match f.number {
            1 => match read_u32(&f.value) {
                Ok(x) => Ok(Self { appid: Some(x), ..self }),
                Err(e) => Err((self, e)),
            },
            2 => match read_packed_varints(&f.value) {
                Ok(xs) => {
                    let mut m = self;
                    let mut xs = xs;
                    m.publishedfileids.append(&mut xs);
                    Ok(m)
                },
                Err(e) => Err((self, e)),
            },
            _ => Ok(self),
        }
    }

    /// Reads the records `bytes` holds into this message, in order. When a record does
    /// not parse or is refused, the reading stops there: the message keeps what the
    /// records before it gave, and the error is returned.
    pub fn merge(&mut self, bytes: &[u8]) -> (r: Result<(), WireError>)
        ensures
            final(self)@ == merge_run(old(self)@, bytes@, Self::apply_fn()).0,
            r == match merge_run(old(self)@, bytes@, Self::apply_fn()).1 {
                None => Ok::<(), WireError>(()),
                Some(e) => Err::<(), WireError>(e),
            },
    {
        let ghost total = merge_run(self@, bytes@, Self::apply_fn());
        let mut cur = Self::default();
        std::mem::swap(&mut cur, self);
        let mut pos: usize = 0;
        assert(bytes@.skip(0) =~= bytes@);
        while pos < bytes.len()
            invariant
                pos <= bytes@.len(),
                total == merge_run(old(self)@, bytes@, Self::apply_fn()),
                merge_run(cur@, bytes@.skip(pos as int), Self::apply_fn()) == total,
            decreases bytes@.len() - pos,
        {
            let ghost s = bytes@.skip(pos as int);
            proof {
                lemma_merge_run_step(cur@, s, Self::apply_fn());
                lemma_parse_field_len(s);
            }
            match read_field(bytes, pos) {
                Ok((f, end)) => {
                    assert(bytes@.skip(end as int) =~= s.skip((end - pos) as int));
                    match cur.applied(&f) {
                        Ok(m) => {
                            cur = m;
                        },
                        Err((m, e)) => {
                            *self = m;
                            return Err(e);
                        },
                    }
                    pos = end;
                },
                Err(e) => {
                    *self = cur;
                    return Err(e);
                },
            }
        }
        assert(bytes@.skip(pos as int) =~= Seq::<u8>::empty());
        proof {
            lemma_merge_run_empty(cur@, Self::apply_fn());
        }
        *self = cur;
        Ok(())
    }

    /// Decodes a message from its encoding.
    pub fn decode(bytes: &[u8]) -> (r: Result<Self, WireError>)
        ensures
            match Self::spec_decode(bytes@) {
                Ok(v) => r matches Ok(m) && m@ == v,
                Err(e) => r matches Err(x) && x == e,
            },
    {
        proof {
            reveal(CPublishedFile_StopPlaytimeTracking_Request::spec_decode);
        }
        let mut m = Self::default();
        match m.merge(bytes) {
            Ok(()) => Ok(m),
            Err(e) => Err(e),
        }
    }

    /// The encoding of this message.
    pub fn encode_to_vec(&self) -> (r: Vec<u8>)
        ensures
            r@ == Self::spec_encode(self@),
    {
        let ghost v = self@;
        let mut out: Vec<u8> = Vec::new();
        let ghost p0 = Seq::<SpecField>::empty();
        put_opt_u32(&mut out, 1, self.appid);
        let ghost p1 = p0 + opt_u32(1, v.appid);
        proof {
            lemma_fields_bytes_concat(p0, opt_u32(1, v.appid));
        }
        put_rep_u64(&mut out, 2, &self.publishedfileids);
        let ghost p2 = p1 + rep_u64(2, v.publishedfileids);
        proof {
            lemma_fields_bytes_concat(p1, rep_u64(2, v.publishedfileids));
        }
        proof {
            reveal(CPublishedFile_StopPlaytimeTracking_Request::spec_encode);
        }
        assert(p2 == Self::spec_fields(v));
        out
    }

    /// Appends the encoding of this message to `out`.
    pub fn encode_raw(&self, out: &mut Vec<u8>)
        ensures
            final(out)@ == old(out)@ + Self::spec_encode(self@),
    {
        let mut b = self.encode_to_vec();
        out.append(&mut b);
    }

    /// The first `k` fields of `v`, the others as a fresh message has them.
    #[verifier::opaque]
    pub open spec fn spec_prefix(v: SpecCPublishedFile_StopPlaytimeTracking_Request, k: int) -> SpecCPublishedFile_StopPlaytimeTracking_Request {
        SpecCPublishedFile_StopPlaytimeTracking_Request {
            appid: if 1 <= k { v.appid } else { None },
            publishedfileids: if 2 <= k { v.publishedfileids } else { Seq::empty() },
        }
    }

    /// Reading field 1 back, after the fields before it.
    proof fn lemma_field_appid(v: SpecCPublishedFile_StopPlaytimeTracking_Request)
        ensures
            fold_fields(Self::spec_prefix(v, 0), opt_u32(1, v.appid), Self::apply_fn())
                == Ok::<SpecCPublishedFile_StopPlaytimeTracking_Request, WireError>(Self::spec_prefix(v, 1)),
    {
        reveal(CPublishedFile_StopPlaytimeTracking_Request::spec_prefix);
        reveal(opt_u32);
        let apply = Self::apply_fn();
        let s = Self::spec_prefix(v, 0);
        lemma_fold_opt(s, 1, match v.appid { Some(x) => Some(enc_u32(x)), None => None }, apply);
        if let Some(x) = v.appid {
            lemma_u32_roundtrip(x);
        }
        assert(SpecCPublishedFile_StopPlaytimeTracking_Request { appid: v.appid, ..s } == Self::spec_prefix(v, 1));
    }

    /// Reading field 2 back, after the fields before it.
    proof fn lemma_field_publishedfileids(v: SpecCPublishedFile_StopPlaytimeTracking_Request)
        ensures
            fold_fields(Self::spec_prefix(v, 1), rep_u64(2, v.publishedfileids), Self::apply_fn())
                == Ok::<SpecCPublishedFile_StopPlaytimeTracking_Request, WireError>(Self::spec_prefix(v, 2)),
    {
        reveal(CPublishedFile_StopPlaytimeTracking_Request::spec_prefix);
        reveal(rep_u64);
        let apply = Self::apply_fn();
        let s = Self::spec_prefix(v, 1);
        let l = rep_u64(2, v.publishedfileids);
        let xs = v.publishedfileids;
        let st = Seq::new((xs.len() + 1) as nat, |j: int| SpecCPublishedFile_StopPlaytimeTracking_Request { publishedfileids: xs.take(j), ..s });
        assert forall|j: int| 0 <= j < l.len() implies #[trigger] apply(st[j], l[j]) == Ok::<SpecCPublishedFile_StopPlaytimeTracking_Request, WireError>(st[j + 1]) by {
            lemma_u64_roundtrip(xs[j]);
            assert(xs.take(j) + seq![xs[j]] =~= xs.take(j + 1));
        }
        lemma_fold_chain(l, st, apply);
        assert(xs.take(0) =~= Seq::<u64>::empty());
        assert(xs.take(xs.len() as int) =~= xs);
        assert(st[0] == s);
        assert(st[xs.len() as int] == Self::spec_prefix(v, 2));
    }

    /// Whether this message declares field number `n`.
    pub open spec fn declares(n: u32) -> bool {
        n == 1 || n == 2
    }

    /// A record with a number this message does not declare is passed over: well-formed
    /// bytes decode to the same message with such a record after them as without it.
    pub proof fn lemma_unknown_field(bytes: Seq<u8>, f: SpecField)
        requires
            parse_fields(bytes) is Ok,
            field_wf(f),
            !Self::declares(f.number),
        ensures
            Self::spec_decode(bytes + field_bytes(f)) == Self::spec_decode(bytes),
    {
        reveal(CPublishedFile_StopPlaytimeTracking_Request::spec_decode);
        lemma_parse_fields_append(bytes, f);
        let fs = parse_fields(bytes).unwrap();
        let apply = Self::apply_fn();
        lemma_fold_concat(Self::spec_default(), fs, seq![f], apply);
        assert(fs.push(f) =~= fs + seq![f]);
        if let Ok(w) = fold_fields(Self::spec_default(), fs, apply) {
            lemma_fold_single(w, f, apply);
        }
        lemma_merge_run_fold(Self::spec_default(), bytes, apply);
        lemma_merge_run_fold(Self::spec_default(), bytes + field_bytes(f), apply);
    }

    /// Decoding the encoding of a message gives the message back.
    pub proof fn lemma_decode_encode(v: SpecCPublishedFile_StopPlaytimeTracking_Request)
        requires
            Self::spec_encode(v).len() <= u64::MAX,
        ensures
            Self::spec_decode(Self::spec_encode(v)) == Ok::<SpecCPublishedFile_StopPlaytimeTracking_Request, WireError>(v),
    {
        let apply = Self::apply_fn();
        let d = Self::spec_default();
        let p0 = Seq::<SpecField>::empty();
        let l1 = opt_u32(1, v.appid);
        let p1 = p0 + l1;
        let l2 = rep_u64(2, v.publishedfileids);
        let p2 = p1 + l2;
        assert(parse_fields(Self::spec_encode(v)) == Ok::<Seq<SpecField>, WireError>(p2)) by {
            reveal(CPublishedFile_StopPlaytimeTracking_Request::spec_encode);
            assert(numbers_ok(p0) && fields_wf(p0)) by {
                reveal(numbers_ok);
                reveal(fields_wf);
            }
            lemma_opt_u32_numbered(1, v.appid);
            lemma_fields_wf_concat(p0, l1);
            lemma_rep_u64_numbered(2, v.publishedfileids);
            lemma_fields_wf_concat(p1, l2);
            assert(p2 == Self::spec_fields(v));
            lemma_fields_wf_from_len(p2);
            lemma_fields_roundtrip(p2);
        }
        assert(Self::spec_prefix(v, 0) == d) by {
            reveal(CPublishedFile_StopPlaytimeTracking_Request::spec_prefix);
        }
        lemma_fold_empty(d, apply);
        lemma_fold_concat(d, p0, l1, apply);
        Self::lemma_field_appid(v);
        lemma_fold_concat(d, p1, l2, apply);
        Self::lemma_field_publishedfileids(v);
        assert(Self::spec_prefix(v, 2) == v) by {
            reveal(CPublishedFile_StopPlaytimeTracking_Request::spec_prefix);
        }
        lemma_merge_run_fold(d, Self::spec_encode(v), apply);
        assert(Self::spec_decode(Self::spec_encode(v)) == Ok::<SpecCPublishedFile_StopPlaytimeTracking_Request, WireError>(v)) by {
            reveal(CPublishedFile_StopPlaytimeTracking_Request::spec_decode);
        }
    }
}

/// `CPublishedFile_StopPlaytimeTracking_Response`, as Valve's schema declares it.
#[derive(Debug, Clone, PartialEq)]
pub struct CPublishedFile_StopPlaytimeTracking_Response {}

/// What a `CPublishedFile_StopPlaytimeTracking_Response` holds, as mathematical values.
#[verifier::ext_equal]
pub struct SpecCPublishedFile_StopPlaytimeTracking_Response {}

impl View for CPublishedFile_StopPlaytimeTracking_Response {
    type V = SpecCPublishedFile_StopPlaytimeTracking_Response;

    open spec fn view(&self) -> SpecCPublishedFile_StopPlaytimeTracking_Response {
        SpecCPublishedFile_StopPlaytimeTracking_Response {}
    }
}

impl Default for CPublishedFile_StopPlaytimeTracking_Response {
    fn default() -> (r: Self)
        ensures
            r@ == CPublishedFile_StopPlaytimeTracking_Response::spec_default(),
    {
        CPublishedFile_StopPlaytimeTracking_Response {}
    }
}

impl CPublishedFile_StopPlaytimeTracking_Response {
    pub open spec fn spec_default() -> SpecCPublishedFile_StopPlaytimeTracking_Response {
        SpecCPublishedFile_StopPlaytimeTracking_Response {}
    }

    /// The records a `CPublishedFile_StopPlaytimeTracking_Response` is written as, in field order.
    pub open spec fn spec_fields(v: SpecCPublishedFile_StopPlaytimeTracking_Response) -> Seq<SpecField> {
        Seq::<SpecField>::empty()
    }

    #[verifier::opaque]
    pub open spec fn spec_encode(v: SpecCPublishedFile_StopPlaytimeTracking_Response) -> Seq<u8> {
        fields_bytes(Self::spec_fields(v))
    }

    /// What one record does to the message: a declared number sets or extends its
    /// field, any other number is left alone.
    pub open spec fn spec_apply(v: SpecCPublishedFile_StopPlaytimeTracking_Response, f: SpecField) -> Result<SpecCPublishedFile_StopPlaytimeTracking_Response, WireError> {
        match f.number {
            _ => Ok(v),
        }
    }

    pub open spec fn apply_fn() -> spec_fn(SpecCPublishedFile_StopPlaytimeTracking_Response, SpecField) -> Result<SpecCPublishedFile_StopPlaytimeTracking_Response, WireError> {
        |v: SpecCPublishedFile_StopPlaytimeTracking_Response, f: SpecField| Self::spec_apply(v, f)
    }

    /// The message `bytes` makes of `v`: its records applied in order, or the error
    /// that stops the reading.
    pub open spec fn spec_merge(v: SpecCPublishedFile_StopPlaytimeTracking_Response, bytes: Seq<u8>) -> Result<SpecCPublishedFile_StopPlaytimeTracking_Response, WireError> {
        let (w, stop) = merge_run(v, bytes, Self::apply_fn());
        match stop {
            None => Ok(w),
            Some(e) => Err(e),
        }
    }

    #[verifier::opaque]
    pub open spec fn spec_decode(bytes: Seq<u8>) -> Result<SpecCPublishedFile_StopPlaytimeTracking_Response, WireError> {
        Self::spec_merge(Self::spec_default(), bytes)
    }

    /// This message with one record applied to it, or, when the record is refused,
    /// the message unchanged and the reason.
    fn applied(self, f: &Field) -> (r: Result<Self, (Self, WireError)>)
        ensures
            match Self::spec_apply(self@, f@) {
                Ok(v) => r matches Ok(m) && m@ == v,
                Err(e) => r matches Err((m, x)) && x == e && m@ == self@,
            },
    {
        match f.number {
            _ => Ok(self),
        }
    }

    /// Reads the records `bytes` holds into this message, in order. When a record does
    /// not parse or is refused, the reading stops there: the message keeps what the
    /// records before it gave, and the error is returned.
    pub fn merge(&mut self, bytes: &[u8]) -> (r: Result<(), WireError>)
        ensures
            final(self)@ == merge_run(old(self)@, bytes@, Self::apply_fn()).0,
            r == match merge_run(old(self)@, bytes@, Self::apply_fn()).1 {
                None => Ok::<(), WireError>(()),
                Some(e) => Err::<(), WireError>(e),
            },
    {
        let ghost total = merge_run(self@, bytes@, Self::apply_fn());
        let mut cur = Self::default();
        std::mem::swap(&mut cur, self);
        let mut pos: usize = 0;
        assert(bytes@.skip(0) =~= bytes@);
        while pos < bytes.len()
            invariant
                pos <= bytes@.len(),
                total == merge_run(old(self)@, bytes@, Self::apply_fn()),
                merge_run(cur@, bytes@.skip(pos as int), Self::apply_fn()) == total,
            decreases bytes@.len() - pos,
        {
            let ghost s = bytes@.skip(pos as int);
            proof {
                lemma_merge_run_step(cur@, s, Self::apply_fn());
                lemma_parse_field_len(s);
            }
            match read_field(bytes, pos) {
                Ok((f, end)) => {
                    assert(bytes@.skip(end as int) =~= s.skip((end - pos) as int));
                    match cur.applied(&f) {
                        Ok(m) => {
                            cur = m;
                        },
                        Err((m, e)) => {
                            *self = m;
                            return Err(e);
                        },
                    }
                    pos = end;
                },
                Err(e) => {
                    *self = cur;
                    return Err(e);
                },
            }
        }
        assert(bytes@.skip(pos as int) =~= Seq::<u8>::empty());
        proof {
            lemma_merge_run_empty(cur@, Self::apply_fn());
        }
        *self = cur;
        Ok(())
    }

    /// Decodes a message from its encoding.
    pub fn decode(bytes: &[u8]) -> (r: Result<Self, WireError>)
        ensures
            match Self::spec_decode(bytes@) {
                Ok(v) => r matches Ok(m) && m@ == v,
                Err(e) => r matches Err(x) && x == e,
            },
    {
        proof {
            reveal(CPublishedFile_StopPlaytimeTracking_Response::spec_decode);
        }
        let mut m = Self::default();
        match m.merge(bytes) {
            Ok(()) => Ok(m),
            Err(e) => Err(e),
        }
    }

    /// The encoding of this message.
    pub fn encode_to_vec(&self) -> (r: Vec<u8>)
        ensures
            r@ == Self::spec_encode(self@),
    {
        let ghost v = self@;
        let mut out: Vec<u8> = Vec::new();
        let ghost p0 = Seq::<SpecField>::empty();
        proof {
            reveal(CPublishedFile_StopPlaytimeTracking_Response::spec_encode);
        }
        assert(p0 == Self::spec_fields(v));
        assert(out@ =~= fields_bytes(p0));
        out
    }

    /// Appends the encoding of this message to `out`.
    pub fn encode_raw(&self, out: &mut Vec<u8>)
        ensures
            final(out)@ == old(out)@ + Self::spec_encode(self@),
    {
        let mut b = self.encode_to_vec();
        out.append(&mut b);
    }

    /// The first `k` fields of `v`, the others as a fresh message has them.
    #[verifier::opaque]
    pub open spec fn spec_prefix(v: SpecCPublishedFile_StopPlaytimeTracking_Response, k: int) -> SpecCPublishedFile_StopPlaytimeTracking_Response {
        SpecCPublishedFile_StopPlaytimeTracking_Response {}
    }

    /// Whether this message declares field number `n`.
    pub open spec fn declares(n: u32) -> bool {
        false
    }

    /// A record with a number this message does not declare is passed over: well-formed
    /// bytes decode to the same message with such a record after them as without it.
    pub proof fn lemma_unknown_field(bytes: Seq<u8>, f: SpecField)
        requires
            parse_fields(bytes) is Ok,
            field_wf(f),
            !Self::declares(f.number),
        ensures
            Self::spec_decode(bytes + field_bytes(f)) == Self::spec_decode(bytes),
    {
        reveal(CPublishedFile_StopPlaytimeTracking_Response::spec_decode);
        lemma_parse_fields_append(bytes, f);
        let fs = parse_fields(bytes).unwrap();
        let apply = Self::apply_fn();
        lemma_fold_concat(Self::spec_default(), fs, seq![f], apply);
        assert(fs.push(f) =~= fs + seq![f]);
        if let Ok(w) = fold_fields(Self::spec_default(), fs, apply) {
            lemma_fold_single(w, f, apply);
        }
        lemma_merge_run_fold(Self::spec_default(), bytes, apply);
        lemma_merge_run_fold(Self::spec_default(), bytes + field_bytes(f), apply);
    }

    /// Decoding the encoding of a message gives the message back.
    pub proof fn lemma_decode_encode(v: SpecCPublishedFile_StopPlaytimeTracking_Response)
        requires
            Self::spec_encode(v).len() <= u64::MAX,
        ensures
            Self::spec_decode(Self::spec_encode(v)) == Ok::<SpecCPublishedFile_StopPlaytimeTracking_Response, WireError>(v),
    {
        let apply = Self::apply_fn();
        let d = Self::spec_default();
        let p0 = Seq::<SpecField>::empty();
        assert(parse_fields(Self::spec_encode(v)) == Ok::<Seq<SpecField>, WireError>(p0)) by {
            reveal(CPublishedFile_StopPlaytimeTracking_Response::spec_encode);
            assert(numbers_ok(p0) && fields_wf(p0)) by {
                reveal(numbers_ok);
                reveal(fields_wf);
            }
            assert(p0 == Self::spec_fields(v));
            lemma_fields_wf_from_len(p0);
            lemma_fields_roundtrip(p0);
        }
        assert(Self::spec_prefix(v, 0) == d) by {
            reveal(CPublishedFile_StopPlaytimeTracking_Response::spec_prefix);
        }
        lemma_fold_empty(d, apply);
        assert(Self::spec_prefix(v, 0) == v) by {
            reveal(CPublishedFile_StopPlaytimeTracking_Response::spec_prefix);
        }
        lemma_merge_run_fold(d, Self::spec_encode(v), apply);
        assert(Self::spec_decode(Self::spec_encode(v)) == Ok::<SpecCPublishedFile_StopPlaytimeTracking_Response, WireError>(v)) by {
            reveal(CPublishedFile_StopPlaytimeTracking_Response::spec_decode);
        }
    }
}

/// `CPublishedFile_StopPlaytimeTrackingForAllAppItems_Request`, as Valve's schema declares it.
#[derive(Debug, Clone, PartialEq)]
pub struct CPublishedFile_StopPlaytimeTrackingForAllAppItems_Request {
    /// Field 1.
    pub appid: Option<u32>,
}

/// What a `CPublishedFile_StopPlaytimeTrackingForAllAppItems_Request` holds, as mathematical values.
#[verifier::ext_equal]
pub struct SpecCPublishedFile_StopPlaytimeTrackingForAllAppItems_Request {
    pub appid: Option<u32>,
}

impl View for CPublishedFile_StopPlaytimeTrackingForAllAppItems_Request {
    type V = SpecCPublishedFile_StopPlaytimeTrackingForAllAppItems_Request;

    open spec fn view(&self) -> SpecCPublishedFile_StopPlaytimeTrackingForAllAppItems_Request {
        SpecCPublishedFile_StopPlaytimeTrackingForAllAppItems_Request {
            appid: self.appid,
        }
    }
}

impl Default for CPublishedFile_StopPlaytimeTrackingForAllAppItems_Request {
    fn default() -> (r: Self)
        ensures
            r@ == CPublishedFile_StopPlaytimeTrackingForAllAppItems_Request::spec_default(),
    {
        CPublishedFile_StopPlaytimeTrackingForAllAppItems_Request {
            appid: None,
        }
    }
}

impl CPublishedFile_StopPlaytimeTrackingForAllAppItems_Request {
    pub open spec fn spec_default() -> SpecCPublishedFile_StopPlaytimeTrackingForAllAppItems_Request {
        SpecCPublishedFile_StopPlaytimeTrackingForAllAppItems_Request {
            appid: None,
        }
    }

    /// The records a `CPublishedFile_StopPlaytimeTrackingForAllAppItems_Request` is written as, in field order.
    pub open spec fn spec_fields(v: SpecCPublishedFile_StopPlaytimeTrackingForAllAppItems_Request) -> Seq<SpecField> {
        Seq::<SpecField>::empty()
            + opt_u32(1, v.appid)
    }

    #[verifier::opaque]
    pub open spec fn spec_encode(v: SpecCPublishedFile_StopPlaytimeTrackingForAllAppItems_Request) -> Seq<u8> {
        fields_bytes(Self::spec_fields(v))
    }

    /// What one record does to the message: a declared number sets or extends its
    /// field, any other number is left alone.
    pub open spec fn spec_apply(v: SpecCPublishedFile_StopPlaytimeTrackingForAllAppItems_Request, f: SpecField) -> Result<SpecCPublishedFile_StopPlaytimeTrackingForAllAppItems_Request, WireError> {
        match f.number {
            1 => match dec_u32(f.value) {
                Ok(x) => Ok(SpecCPublishedFile_StopPlaytimeTrackingForAllAppItems_Request { appid: Some(x), ..v }),
                Err(e) => Err(e),
            },
            _ => Ok(v),
        }
    }

    pub open spec fn apply_fn() -> spec_fn(SpecCPublishedFile_StopPlaytimeTrackingForAllAppItems_Request, SpecField) -> Result<SpecCPublishedFile_StopPlaytimeTrackingForAllAppItems_Request, WireError> {
        |v: SpecCPublishedFile_StopPlaytimeTrackingForAllAppItems_Request, f: SpecField| Self::spec_apply(v, f)
    }

    /// The message `bytes` makes of `v`: its records applied in order, or the error
    /// that stops the reading.
    pub open spec fn spec_merge(v: SpecCPublishedFile_StopPlaytimeTrackingForAllAppItems_Request, bytes: Seq<u8>) -> Result<SpecCPublishedFile_StopPlaytimeTrackingForAllAppItems_Request, WireError> {
        let (w, stop) = merge_run(v, bytes, Self::apply_fn());
        match stop {
            None => Ok(w),
            Some(e) => Err(e),
        }
    }

    #[verifier::opaque]
    pub open spec fn spec_decode(bytes: Seq<u8>) -> Result<SpecCPublishedFile_StopPlaytimeTrackingForAllAppItems_Request, WireError> {
        Self::spec_merge(Self::spec_default(), bytes)
    }

    /// This message with one record applied to it, or, when the record is refused,
    /// the message unchanged and the reason.
    fn applied(self, f: &Field) -> (r: Result<Self, (Self, WireError)>)
        ensures
            match Self::spec_apply(self@, f@) {
                Ok(v) => r matches Ok(m) && m@ == v,
                Err(e) => r matches Err((m, x)) && x == e && m@ == self@,
            },
    {
        match f.number {
            1 => match read_u32(&f.value) {
                Ok(x) => Ok(Self { appid: Some(x), ..self }),
                Err(e) => Err((self, e)),
            },
            _ => Ok(self),
        }
    }

    /// Reads the records `bytes` holds into this message, in order. When a record does
    /// not parse or is refused, the reading stops there: the message keeps what the
    /// records before it gave, and the error is returned.
    pub fn merge(&mut self, bytes: &[u8]) -> (r: Result<(), WireError>)
        ensures
            final(self)@ == merge_run(old(self)@, bytes@, Self::apply_fn()).0,
            r == match merge_run(old(self)@, bytes@, Self::apply_fn()).1 {
                None => Ok::<(), WireError>(()),
                Some(e) => Err::<(), WireError>(e),
            },
    {
        let ghost total = merge_run(self@, bytes@, Self::apply_fn());
        let mut cur = Self::default();
        std::mem::swap(&mut cur, self);
        let mut pos: usize = 0;
        assert(bytes@.skip(0) =~= bytes@);
        while pos < bytes.len()
            invariant
                pos <= bytes@.len(),
                total == merge_run(old(self)@, bytes@, Self::apply_fn()),
                merge_run(cur@, bytes@.skip(pos as int), Self::apply_fn()) == total,
            decreases bytes@.len() - pos,
        {
            let ghost s = bytes@.skip(pos as int);
            proof {
                lemma_merge_run_step(cur@, s, Self::apply_fn());
                lemma_parse_field_len(s);
            }
            match read_field(bytes, pos) {
                Ok((f, end)) => {
                    assert(bytes@.skip(end as int) =~= s.skip((end - pos) as int));
                    match cur.applied(&f) {
                        Ok(m) => {
                            cur = m;
                        },
                        Err((m, e)) => {
                            *self = m;
                            return Err(e);
                        },
                    }
                    pos = end;
                },
                Err(e) => {
                    *self = cur;
                    return Err(e);
                },
            }
        }
        assert(bytes@.skip(pos as int) =~= Seq::<u8>::empty());
        proof {
            lemma_merge_run_empty(cur@, Self::apply_fn());
        }
        *self = cur;
        Ok(())
    }

    /// Decodes a message from its encoding.
    pub fn decode(bytes: &[u8]) -> (r: Result<Self, WireError>)
        ensures
            match Self::spec_decode(bytes@) {
                Ok(v) => r matches Ok(m) && m@ == v,
                Err(e) => r matches Err(x) && x == e,
            },
    {
        proof {
            reveal(CPublishedFile_StopPlaytimeTrackingForAllAppItems_Request::spec_decode);
        }
        let mut m = Self::default();
        match m.merge(bytes) {
            Ok(()) => Ok(m),
            Err(e) => Err(e),
        }
    }

    /// The encoding of this message.
    pub fn encode_to_vec(&self) -> (r: Vec<u8>)
        ensures
            r@ == Self::spec_encode(self@),
    {
        let ghost v = self@;
        let mut out: Vec<u8> = Vec::new();
        let ghost p0 = Seq::<SpecField>::empty();
        put_opt_u32(&mut out, 1, self.appid);
        let ghost p1 = p0 + opt_u32(1, v.appid);
        proof {
            lemma_fields_bytes_concat(p0, opt_u32(1, v.appid));
        }
        proof {
            reveal(CPublishedFile_StopPlaytimeTrackingForAllAppItems_Request::spec_encode);
        }
        assert(p1 == Self::spec_fields(v));
        out
    }

    /// Appends the encoding of this message to `out`.
    pub fn encode_raw(&self, out: &mut Vec<u8>)
        ensures
            final(out)@ == old(out)@ + Self::spec_encode(self@),
    {
        let mut b = self.encode_to_vec();
        out.append(&mut b);
    }

    /// The first `k` fields of `v`, the others as a fresh message has them.
    #[verifier::opaque]
    pub open spec fn spec_prefix(v: SpecCPublishedFile_StopPlaytimeTrackingForAllAppItems_Request, k: int) -> SpecCPublishedFile_StopPlaytimeTrackingForAllAppItems_Request {
        SpecCPublishedFile_StopPlaytimeTrackingForAllAppItems_Request {
            appid: if 1 <= k { v.appid } else { None },
        }
    }

    /// Reading field 1 back, after the fields before it.
    proof fn lemma_field_appid(v: SpecCPublishedFile_StopPlaytimeTrackingForAllAppItems_Request)
        ensures
            fold_fields(Self::spec_prefix(v, 0), opt_u32(1, v.appid), Self::apply_fn())
                == Ok::<SpecCPublishedFile_StopPlaytimeTrackingForAllAppItems_Request, WireError>(Self::spec_prefix(v, 1)),
    {
        reveal(CPublishedFile_StopPlaytimeTrackingForAllAppItems_Request::spec_prefix);
        reveal(opt_u32);
        let apply = Self::apply_fn();
        let s = Self::spec_prefix(v, 0);
        lemma_fold_opt(s, 1, match v.appid { Some(x) => Some(enc_u32(x)), None => None }, apply);
        if let Some(x) = v.appid {
            lemma_u32_roundtrip(x);
        }
        assert(SpecCPublishedFile_StopPlaytimeTrackingForAllAppItems_Request { appid: v.appid, ..s } == Self::spec_prefix(v, 1));
    }

    /// Whether this message declares field number `n`.
    pub open spec fn declares(n: u32) -> bool {
        n == 1
    }

    /// A record with a number this message does not declare is passed over: well-formed
    /// bytes decode to the same message with such a record after them as without it.
    pub proof fn lemma_unknown_field(bytes: Seq<u8>, f: SpecField)
        requires
            parse_fields(bytes) is Ok,
            field_wf(f),
            !Self::declares(f.number),
        ensures
            Self::spec_decode(bytes + field_bytes(f)) == Self::spec_decode(bytes),
    {
        reveal(CPublishedFile_StopPlaytimeTrackingForAllAppItems_Request::spec_decode);
        lemma_parse_fields_append(bytes, f);
        let fs = parse_fields(bytes).unwrap();
        let apply = Self::apply_fn();
        lemma_fold_concat(Self::spec_default(), fs, seq![f], apply);
        assert(fs.push(f) =~= fs + seq![f]);
        if let Ok(w) = fold_fields(Self::spec_default(), fs, apply) {
            lemma_fold_single(w, f, apply);
        }
        lemma_merge_run_fold(Self::spec_default(), bytes, apply);
        lemma_merge_run_fold(Self::spec_default(), bytes + field_bytes(f), apply);
    }

    /// Decoding the encoding of a message gives the message back.
    pub proof fn lemma_decode_encode(v: SpecCPublishedFile_StopPlaytimeTrackingForAllAppItems_Request)
        requires
            Self::spec_encode(v).len() <= u64::MAX,
        ensures
            Self::spec_decode(Self::spec_encode(v)) == Ok::<SpecCPublishedFile_StopPlaytimeTrackingForAllAppItems_Request, WireError>(v),
    {
        let apply = Self::apply_fn();
        let d = Self::spec_default();
        let p0 = Seq::<SpecField>::empty();
        let l1 = opt_u32(1, v.appid);
        let p1 = p0 + l1;
        assert(parse_fields(Self::spec_encode(v)) == Ok::<Seq<SpecField>, WireError>(p1)) by {
            reveal(CPublishedFile_StopPlaytimeTrackingForAllAppItems_Request::spec_encode);
            assert(numbers_ok(p0) && fields_wf(p0)) by {
                reveal(numbers_ok);
                reveal(fields_wf);
            }
            lemma_opt_u32_numbered(1, v.appid);
            lemma_fields_wf_concat(p0, l1);
            assert(p1 == Self::spec_fields(v));
            lemma_fields_wf_from_len(p1);
            lemma_fields_roundtrip(p1);
        }
        assert(Self::spec_prefix(v, 0) == d) by {
            reveal(CPublishedFile_StopPlaytimeTrackingForAllAppItems_Request::spec_prefix);
        }
        lemma_fold_empty(d, apply);
        lemma_fold_concat(d, p0, l1, apply);
        Self::lemma_field_appid(v);
        assert(Self::spec_prefix(v, 1) == v) by {
            reveal(CPublishedFile_StopPlaytimeTrackingForAllAppItems_Request::spec_prefix);
        }
        lemma_merge_run_fold(d, Self::spec_encode(v), apply);
        assert(Self::spec_decode(Self::spec_encode(v)) == Ok::<SpecCPublishedFile_StopPlaytimeTrackingForAllAppItems_Request, WireError>(v)) by {
            reveal(CPublishedFile_StopPlaytimeTrackingForAllAppItems_Request::spec_decode);
        }
    }
}

/// `CPublishedFile_StopPlaytimeTrackingForAllAppItems_Response`, as Valve's schema declares it.
#[derive(Debug, Clone, PartialEq)]
pub struct CPublishedFile_StopPlaytimeTrackingForAllAppItems_Response {}

/// What a `CPublishedFile_StopPlaytimeTrackingForAllAppItems_Response` holds, as mathematical values.
#[verifier::ext_equal]
pub struct SpecCPublishedFile_StopPlaytimeTrackingForAllAppItems_Response {}

impl View for CPublishedFile_StopPlaytimeTrackingForAllAppItems_Response {
    type V = SpecCPublishedFile_StopPlaytimeTrackingForAllAppItems_Response;

    open spec fn view(&self) -> SpecCPublishedFile_StopPlaytimeTrackingForAllAppItems_Response {
        SpecCPublishedFile_StopPlaytimeTrackingForAllAppItems_Response {}
    }
}

impl Default for CPublishedFile_StopPlaytimeTrackingForAllAppItems_Response {
    fn default() -> (r: Self)
        ensures
            r@ == CPublishedFile_StopPlaytimeTrackingForAllAppItems_Response::spec_default(),
    {
        CPublishedFile_StopPlaytimeTrackingForAllAppItems_Response {}
    }
}

impl CPublishedFile_StopPlaytimeTrackingForAllAppItems_Response {
    pub open spec fn spec_default() -> SpecCPublishedFile_StopPlaytimeTrackingForAllAppItems_Response {
        SpecCPublishedFile_StopPlaytimeTrackingForAllAppItems_Response {}
    }

    /// The records a `CPublishedFile_StopPlaytimeTrackingForAllAppItems_Response` is written as, in field order.
    pub open spec fn spec_fields(v: SpecCPublishedFile_StopPlaytimeTrackingForAllAppItems_Response) -> Seq<SpecField> {
        Seq::<SpecField>::empty()
    }

    #[verifier::opaque]
    pub open spec fn spec_encode(v: SpecCPublishedFile_StopPlaytimeTrackingForAllAppItems_Response) -> Seq<u8> {
        fields_bytes(Self::spec_fields(v))
    }

    /// What one record does to the message: a declared number sets or extends its
    /// field, any other number is left alone.
    pub open spec fn spec_apply(v: SpecCPublishedFile_StopPlaytimeTrackingForAllAppItems_Response, f: SpecField) -> Result<SpecCPublishedFile_StopPlaytimeTrackingForAllAppItems_Response, WireError> {
        match f.number {
            _ => Ok(v),
        }
    }

    pub open spec fn apply_fn() -> spec_fn(SpecCPublishedFile_StopPlaytimeTrackingForAllAppItems_Response, SpecField) -> Result<SpecCPublishedFile_StopPlaytimeTrackingForAllAppItems_Response, WireError> {
        |v: SpecCPublishedFile_StopPlaytimeTrackingForAllAppItems_Response, f: SpecField| Self::spec_apply(v, f)
    }

    /// The message `bytes` makes of `v`: its records applied in order, or the error
    /// that stops the reading.
    pub open spec fn spec_merge(v: SpecCPublishedFile_StopPlaytimeTrackingForAllAppItems_Response, bytes: Seq<u8>) -> Result<SpecCPublishedFile_StopPlaytimeTrackingForAllAppItems_Response, WireError> {
        let (w, stop) = merge_run(v, bytes, Self::apply_fn());
        match stop {
            None => Ok(w),
            Some(e) => Err(e),
        }
    }

    #[verifier::opaque]
    pub open spec fn spec_decode(bytes: Seq<u8>) -> Result<SpecCPublishedFile_StopPlaytimeTrackingForAllAppItems_Response, WireError> {
        Self::spec_merge(Self::spec_default(), bytes)
    }

    /// This message with one record applied to it, or, when the record is refused,
    /// the message unchanged and the reason.
    fn applied(self, f: &Field) -> (r: Result<Self, (Self, WireError)>)
        ensures
            match Self::spec_apply(self@, f@) {
                Ok(v) => r matches Ok(m) && m@ == v,
                Err(e) => r matches Err((m, x)) && x == e && m@ == self@,
            },
    {
        match f.number {
            _ => Ok(self),
        }
    }

    /// Reads the records `bytes` holds into this message, in order. When a record does
    /// not parse or is refused, the reading stops there: the message keeps what the
    /// records before it gave, and the error is returned.
    pub fn merge(&mut self, bytes: &[u8]) -> (r: Result<(), WireError>)
        ensures
            final(self)@ == merge_run(old(self)@, bytes@, Self::apply_fn()).0,
            r == match merge_run(old(self)@, bytes@, Self::apply_fn()).1 {
                None => Ok::<(), WireError>(()),
                Some(e) => Err::<(), WireError>(e),
            },
    {
        let ghost total = merge_run(self@, bytes@, Self::apply_fn());
        let mut cur = Self::default();
        std::mem::swap(&mut cur, self);
        let mut pos: usize = 0;
        assert(bytes@.skip(0) =~= bytes@);
        while pos < bytes.len()
            invariant
                pos <= bytes@.len(),
                total == merge_run(old(self)@, bytes@, Self::apply_fn()),
                merge_run(cur@, bytes@.skip(pos as int), Self::apply_fn()) == total,
            decreases bytes@.len() - pos,
        {
            let ghost s = bytes@.skip(pos as int);
            proof {
                lemma_merge_run_step(cur@, s, Self::apply_fn());
                lemma_parse_field_len(s);
            }
            match read_field(bytes, pos) {
                Ok((f, end)) => {
                    assert(bytes@.skip(end as int) =~= s.skip((end - pos) as int));
                    match cur.applied(&f) {
                        Ok(m) => {
                            cur = m;
                        },
                        Err((m, e)) => {
                            *self = m;
                            return Err(e);
                        },
                    }
                    pos = end;
                },
                Err(e) => {
                    *self = cur;
                    return Err(e);
                },
            }
        }
        assert(bytes@.skip(pos as int) =~= Seq::<u8>::empty());
        proof {
            lemma_merge_run_empty(cur@, Self::apply_fn());
        }
        *self = cur;
        Ok(())
    }

    /// Decodes a message from its encoding.
    pub fn decode(bytes: &[u8]) -> (r: Result<Self, WireError>)
        ensures
            match Self::spec_decode(bytes@) {
                Ok(v) => r matches Ok(m) && m@ == v,
                Err(e) => r matches Err(x) && x == e,
            },
    {
        proof {
            reveal(CPublishedFile_StopPlaytimeTrackingForAllAppItems_Response::spec_decode);
        }
        let mut m = Self::default();
        match m.merge(bytes) {
            Ok(()) => Ok(m),
            Err(e) => Err(e),
        }
    }

    /// The encoding of this message.
    pub fn encode_to_vec(&self) -> (r: Vec<u8>)
        ensures
            r@ == Self::spec_encode(self@),
    {
        let ghost v = self@;
        let mut out: Vec<u8> = Vec::new();
        let ghost p0 = Seq::<SpecField>::empty();
        proof {
            reveal(CPublishedFile_StopPlaytimeTrackingForAllAppItems_Response::spec_encode);
        }
        assert(p0 == Self::spec_fields(v));
        assert(out@ =~= fields_bytes(p0));
        out
    }

    /// Appends the encoding of this message to `out`.
    pub fn encode_raw(&self, out: &mut Vec<u8>)
        ensures
            final(out)@ == old(out)@ + Self::spec_encode(self@),
    {
        let mut b = self.encode_to_vec();
        out.append(&mut b);
    }

    /// The first `k` fields of `v`, the others as a fresh message has them.
    #[verifier::opaque]
    pub open spec fn spec_prefix(v: SpecCPublishedFile_StopPlaytimeTrackingForAllAppItems_Response, k: int) -> SpecCPublishedFile_StopPlaytimeTrackingForAllAppItems_Response {
        SpecCPublishedFile_StopPlaytimeTrackingForAllAppItems_Response {}
    }

    /// Whether this message declares field number `n`.
    pub open spec fn declares(n: u32) -> bool {
        false
    }

    /// A record with a number this message does not declare is passed over: well-formed
    /// bytes decode to the same message with such a record after them as without it.
    pub proof fn lemma_unknown_field(bytes: Seq<u8>, f: SpecField)
        requires
            parse_fields(bytes) is Ok,
            field_wf(f),
            !Self::declares(f.number),
        ensures
            Self::spec_decode(bytes + field_bytes(f)) == Self::spec_decode(bytes),
    {
        reveal(CPublishedFile_StopPlaytimeTrackingForAllAppItems_Response::spec_decode);
        lemma_parse_fields_append(bytes, f);
        let fs = parse_fields(bytes).unwrap();
        let apply = Self::apply_fn();
        lemma_fold_concat(Self::spec_default(), fs, seq![f], apply);
        assert(fs.push(f) =~= fs + seq![f]);
        if let Ok(w) = fold_fields(Self::spec_default(), fs, apply) {
            lemma_fold_single(w, f, apply);
        }
        lemma_merge_run_fold(Self::spec_default(), bytes, apply);
        lemma_merge_run_fold(Self::spec_default(), bytes + field_bytes(f), apply);
    }

    /// Decoding the encoding of a message gives the message back.
    pub proof fn lemma_decode_encode(v: SpecCPublishedFile_StopPlaytimeTrackingForAllAppItems_Response)
        requires
            Self::spec_encode(v).len() <= u64::MAX,
        ensures
            Self::spec_decode(Self::spec_encode(v)) == Ok::<SpecCPublishedFile_StopPlaytimeTrackingForAllAppItems_Response, WireError>(v),
    {
        let apply = Self::apply_fn();
        let d = Self::spec_default();
        let p0 = Seq::<SpecField>::empty();
        assert(parse_fields(Self::spec_encode(v)) == Ok::<Seq<SpecField>, WireError>(p0)) by {
            reveal(CPublishedFile_StopPlaytimeTrackingForAllAppItems_Response::spec_encode);
            assert(numbers_ok(p0) && fields_wf(p0)) by {
                reveal(numbers_ok);
                reveal(fields_wf);
            }
            assert(p0 == Self::spec_fields(v));
            lemma_fields_wf_from_len(p0);
            lemma_fields_roundtrip(p0);
        }
        assert(Self::spec_prefix(v, 0) == d) by {
            reveal(CPublishedFile_StopPlaytimeTrackingForAllAppItems_Response::spec_prefix);
        }
        lemma_fold_empty(d, apply);
        assert(Self::spec_prefix(v, 0) == v) by {
            reveal(CPublishedFile_StopPlaytimeTrackingForAllAppItems_Response::spec_prefix);
        }
        lemma_merge_run_fold(d, Self::spec_encode(v), apply);
        assert(Self::spec_decode(Self::spec_encode(v)) == Ok::<SpecCPublishedFile_StopPlaytimeTrackingForAllAppItems_Response, WireError>(v)) by {
            reveal(CPublishedFile_StopPlaytimeTrackingForAllAppItems_Response::spec_decode);
        }
    }
}

/// `CPublishedFile_SetPlaytimeForControllerConfigs_Request`, as Valve's schema declares it.
#[derive(Debug, Clone, PartialEq)]
pub struct CPublishedFile_SetPlaytimeForControllerConfigs_Request {
    /// Field 1.
    pub appid: Option<u32>,
    /// Field 2.
    pub controller_config_usage: Vec<crate::steammessages_publishedfile_steamclient::c_published_file_set_playtime_for_controller_configs_request::ControllerConfigUsage>,
}

/// What a `CPublishedFile_SetPlaytimeForControllerConfigs_Request` holds, as mathematical values.
#[verifier::ext_equal]
pub struct SpecCPublishedFile_SetPlaytimeForControllerConfigs_Request {
    pub appid: Option<u32>,
    pub controller_config_usage: Seq<crate::steammessages_publishedfile_steamclient::c_published_file_set_playtime_for_controller_configs_request::SpecControllerConfigUsage>,
}

impl View for CPublishedFile_SetPlaytimeForControllerConfigs_Request {
    type V = SpecCPublishedFile_SetPlaytimeForControllerConfigs_Request;

    open spec fn view(&self) -> SpecCPublishedFile_SetPlaytimeForControllerConfigs_Request {
        SpecCPublishedFile_SetPlaytimeForControllerConfigs_Request {
            appid: self.appid,
            controller_config_usage: crate::steammessages_publishedfile_steamclient::c_published_file_set_playtime_for_controller_configs_request::ControllerConfigUsage::view_all(self.controller_config_usage@),
        }
    }
}

impl Default for CPublishedFile_SetPlaytimeForControllerConfigs_Request {
    fn default() -> (r: Self)
        ensures
            r@ == CPublishedFile_SetPlaytimeForControllerConfigs_Request::spec_default(),
    {
        CPublishedFile_SetPlaytimeForControllerConfigs_Request {
            appid: None,
            controller_config_usage: Vec::new(),
        }
    }
}

impl CPublishedFile_SetPlaytimeForControllerConfigs_Request {
    pub open spec fn spec_default() -> SpecCPublishedFile_SetPlaytimeForControllerConfigs_Request {
        SpecCPublishedFile_SetPlaytimeForControllerConfigs_Request {
            appid: None,
            controller_config_usage: Seq::empty(),
        }
    }

    /// The records a `CPublishedFile_SetPlaytimeForControllerConfigs_Request` is written as, in field order.
    pub open spec fn spec_fields(v: SpecCPublishedFile_SetPlaytimeForControllerConfigs_Request) -> Seq<SpecField> {
        Seq::<SpecField>::empty()
            + opt_u32(1, v.appid)
            + rep_bytes(2, crate::steammessages_publishedfile_steamclient::c_published_file_set_playtime_for_controller_configs_request::ControllerConfigUsage::spec_encode_all(v.controller_config_usage))
    }

    #[verifier::opaque]
    pub open spec fn spec_encode(v: SpecCPublishedFile_SetPlaytimeForControllerConfigs_Request) -> Seq<u8> {
        fields_bytes(Self::spec_fields(v))
    }

    /// What one record does to the message: a declared number sets or extends its
    /// field, any other number is left alone.
    pub open spec fn spec_apply(v: SpecCPublishedFile_SetPlaytimeForControllerConfigs_Request, f: SpecField) -> Result<SpecCPublishedFile_SetPlaytimeForControllerConfigs_Request, WireError> {
        match f.number {
            1 => match dec_u32(f.value) {
                Ok(x) => Ok(SpecCPublishedFile_SetPlaytimeForControllerConfigs_Request { appid: Some(x), ..v }),
                Err(e) => Err(e),
            },
            2 => match dec_bytes(f.value) {
                Ok(b) => match crate::steammessages_publishedfile_steamclient::c_published_file_set_playtime_for_controller_configs_request::ControllerConfigUsage::spec_decode(b) {
                    Ok(m) => Ok(SpecCPublishedFile_SetPlaytimeForControllerConfigs_Request { controller_config_usage: v.controller_config_usage.push(m), ..v }),
                    Err(e) => Err(e),
                },
                Err(e) => Err(e),
            },
            _ => Ok(v),
        }
    }

    pub open spec fn apply_fn() -> spec_fn(SpecCPublishedFile_SetPlaytimeForControllerConfigs_Request, SpecField) -> Result<SpecCPublishedFile_SetPlaytimeForControllerConfigs_Request, WireError> {
        |v: SpecCPublishedFile_SetPlaytimeForControllerConfigs_Request, f: SpecField| Self::spec_apply(v, f)
    }

    /// The message `bytes` makes of `v`: its records applied in order, or the error
    /// that stops the reading.
    pub open spec fn spec_merge(v: SpecCPublishedFile_SetPlaytimeForControllerConfigs_Request, bytes: Seq<u8>) -> Result<SpecCPublishedFile_SetPlaytimeForControllerConfigs_Request, WireError> {
        let (w, stop) = merge_run(v, bytes, Self::apply_fn());
        match stop {
            None => Ok(w),
            Some(e) => Err(e),
        }
    }

    #[verifier::opaque]
    pub open spec fn spec_decode(bytes: Seq<u8>) -> Result<SpecCPublishedFile_SetPlaytimeForControllerConfigs_Request, WireError> {
        Self::spec_merge(Self::spec_default(), bytes)
    }

    /// This message with one record applied to it, or, when the record is refused,
    /// the message unchanged and the reason.
    fn applied(self, f: &Field) -> (r: Result<Self, (Self, WireError)>)
        ensures
            match Self::spec_apply(self@, f@) {
                Ok(v) => r matches Ok(m) && m@ == v,
                Err(e) => r matches Err((m, x)) && x == e && m@ == self@,
            },
    {
        match f.number {
            1 => match read_u32(&f.value) {
                Ok(x) => Ok(Self { appid: Some(x), ..self }),
                Err(e) => Err((self, e)),
            },
            2 => match read_payload(&f.value) {
                Ok(b) => match crate::steammessages_publishedfile_steamclient::c_published_file_set_playtime_for_controller_configs_request::ControllerConfigUsage::decode(b) {
                    Ok(x) => {
                        let mut m = self;
                        let ghost before = m.controller_config_usage@;
                        m.controller_config_usage.push(x);
                        assert(crate::steammessages_publishedfile_steamclient::c_published_file_set_playtime_for_controller_configs_request::ControllerConfigUsage::view_all(m.controller_config_usage@) =~= crate::steammessages_publishedfile_steamclient::c_published_file_set_playtime_for_controller_configs_request::ControllerConfigUsage::view_all(before).push(x@));
                        Ok(m)
                    },
                    Err(e) => Err((self, e)),
                },
                Err(e) => Err((self, e)),
            },
            _ => Ok(self),
        }
    }

    /// Reads the records `bytes` holds into this message, in order. When a record does
    /// not parse or is refused, the reading stops there: the message keeps what the
    /// records before it gave, and the error is returned.
    pub fn merge(&mut self, bytes: &[u8]) -> (r: Result<(), WireError>)
        ensures
            final(self)@ == merge_run(old(self)@, bytes@, Self::apply_fn()).0,
            r == match merge_run(old(self)@, bytes@, Self::apply_fn()).1 {
                None => Ok::<(), WireError>(()),
                Some(e) => Err::<(), WireError>(e),
            },
    {
        let ghost total = merge_run(self@, bytes@, Self::apply_fn());
        let mut cur = Self::default();
        std::mem::swap(&mut cur, self);
        let mut pos: usize = 0;
        assert(bytes@.skip(0) =~= bytes@);
        while pos < bytes.len()
            invariant
                pos <= bytes@.len(),
                total == merge_run(old(self)@, bytes@, Self::apply_fn()),
                merge_run(cur@, bytes@.skip(pos as int), Self::apply_fn()) == total,
            decreases bytes@.len() - pos,
        {
            let ghost s = bytes@.skip(pos as int);
            proof {
                lemma_merge_run_step(cur@, s, Self::apply_fn());
                lemma_parse_field_len(s);
            }
            match read_field(bytes, pos) {
                Ok((f, end)) => {
                    assert(bytes@.skip(end as int) =~= s.skip((end - pos) as int));
                    match cur.applied(&f) {
                        Ok(m) => {
                            cur = m;
                        },
                        Err((m, e)) => {
                            *self = m;
                            return Err(e);
                        },
                    }
                    pos = end;
                },
                Err(e) => {
                    *self = cur;
                    return Err(e);
                },
            }
        }
        assert(bytes@.skip(pos as int) =~= Seq::<u8>::empty());
        proof {
            lemma_merge_run_empty(cur@, Self::apply_fn());
        }
        *self = cur;
        Ok(())
    }

    /// Decodes a message from its encoding.
    pub fn decode(bytes: &[u8]) -> (r: Result<Self, WireError>)
        ensures
            match Self::spec_decode(bytes@) {
                Ok(v) => r matches Ok(m) && m@ == v,
                Err(e) => r matches Err(x) && x == e,
            },
    {
        proof {
            reveal(CPublishedFile_SetPlaytimeForControllerConfigs_Request::spec_decode);
        }
        let mut m = Self::default();
        match m.merge(bytes) {
            Ok(()) => Ok(m),
            Err(e) => Err(e),
        }
    }

    /// The encoding of this message.
    pub fn encode_to_vec(&self) -> (r: Vec<u8>)
        ensures
            r@ == Self::spec_encode(self@),
    {
        let enc_controller_config_usage = crate::steammessages_publishedfile_steamclient::c_published_file_set_playtime_for_controller_configs_request::ControllerConfigUsage::encode_all(&self.controller_config_usage);
        let ghost v = self@;
        let mut out: Vec<u8> = Vec::new();
        let ghost p0 = Seq::<SpecField>::empty();
        put_opt_u32(&mut out, 1, self.appid);
        let ghost p1 = p0 + opt_u32(1, v.appid);
        proof {
            lemma_fields_bytes_concat(p0, opt_u32(1, v.appid));
        }
        put_rep_bytes(&mut out, 2, &enc_controller_config_usage);
        let ghost p2 = p1 + rep_bytes(2, crate::steammessages_publishedfile_steamclient::c_published_file_set_playtime_for_controller_configs_request::ControllerConfigUsage::spec_encode_all(v.controller_config_usage));
        proof {
            lemma_fields_bytes_concat(p1, rep_bytes(2, crate::steammessages_publishedfile_steamclient::c_published_file_set_playtime_for_controller_configs_request::ControllerConfigUsage::spec_encode_all(v.controller_config_usage)));
        }
        proof {
            reveal(CPublishedFile_SetPlaytimeForControllerConfigs_Request::spec_encode);
        }
        assert(p2 == Self::spec_fields(v));
        out
    }

    /// Appends the encoding of this message to `out`.
    pub fn encode_raw(&self, out: &mut Vec<u8>)
        ensures
            final(out)@ == old(out)@ + Self::spec_encode(self@),
    {
        let mut b = self.encode_to_vec();
        out.append(&mut b);
    }

    /// The first `k` fields of `v`, the others as a fresh message has them.
    #[verifier::opaque]
    pub open spec fn spec_prefix(v: SpecCPublishedFile_SetPlaytimeForControllerConfigs_Request, k: int) -> SpecCPublishedFile_SetPlaytimeForControllerConfigs_Request {
        SpecCPublishedFile_SetPlaytimeForControllerConfigs_Request {
            appid: if 1 <= k { v.appid } else { None },
            controller_config_usage: if 2 <= k { v.controller_config_usage } else { Seq::empty() },
        }
    }

    /// Reading field 1 back, after the fields before it.
    proof fn lemma_field_appid(v: SpecCPublishedFile_SetPlaytimeForControllerConfigs_Request)
        ensures
            fold_fields(Self::spec_prefix(v, 0), opt_u32(1, v.appid), Self::apply_fn())
                == Ok::<SpecCPublishedFile_SetPlaytimeForControllerConfigs_Request, WireError>(Self::spec_prefix(v, 1)),
    {
        reveal(CPublishedFile_SetPlaytimeForControllerConfigs_Request::spec_prefix);
        reveal(opt_u32);
        let apply = Self::apply_fn();
        let s = Self::spec_prefix(v, 0);
        lemma_fold_opt(s, 1, match v.appid { Some(x) => Some(enc_u32(x)), None => None }, apply);
        if let Some(x) = v.appid {
            lemma_u32_roundtrip(x);
        }
        assert(SpecCPublishedFile_SetPlaytimeForControllerConfigs_Request { appid: v.appid, ..s } == Self::spec_prefix(v, 1));
    }

    /// Reading field 2 back, after the fields before it.
    proof fn lemma_field_controller_config_usage(v: SpecCPublishedFile_SetPlaytimeForControllerConfigs_Request)
        requires
            fields_wf(rep_bytes(2, crate::steammessages_publishedfile_steamclient::c_published_file_set_playtime_for_controller_configs_request::ControllerConfigUsage::spec_encode_all(v.controller_config_usage))),
        ensures
            fold_fields(Self::spec_prefix(v, 1), rep_bytes(2, crate::steammessages_publishedfile_steamclient::c_published_file_set_playtime_for_controller_configs_request::ControllerConfigUsage::spec_encode_all(v.controller_config_usage)), Self::apply_fn())
                == Ok::<SpecCPublishedFile_SetPlaytimeForControllerConfigs_Request, WireError>(Self::spec_prefix(v, 2)),
    {
        reveal(CPublishedFile_SetPlaytimeForControllerConfigs_Request::spec_prefix);
        reveal(rep_bytes);
        reveal(fields_wf);
        let apply = Self::apply_fn();
        let s = Self::spec_prefix(v, 1);
        let l = rep_bytes(2, crate::steammessages_publishedfile_steamclient::c_published_file_set_playtime_for_controller_configs_request::ControllerConfigUsage::spec_encode_all(v.controller_config_usage));
        let xs = v.controller_config_usage;
        let st = Seq::new((xs.len() + 1) as nat, |j: int| SpecCPublishedFile_SetPlaytimeForControllerConfigs_Request { controller_config_usage: xs.take(j), ..s });
        assert forall|j: int| 0 <= j < l.len() implies #[trigger] apply(st[j], l[j]) == Ok::<SpecCPublishedFile_SetPlaytimeForControllerConfigs_Request, WireError>(st[j + 1]) by {
            assert(field_wf(l[j]));
            crate::steammessages_publishedfile_steamclient::c_published_file_set_playtime_for_controller_configs_request::ControllerConfigUsage::lemma_decode_encode(xs[j]);
            assert(xs.take(j).push(xs[j]) =~= xs.take(j + 1));
        }
        lemma_fold_chain(l, st, apply);
        assert(xs.take(0) =~= Seq::<crate::steammessages_publishedfile_steamclient::c_published_file_set_playtime_for_controller_configs_request::SpecControllerConfigUsage>::empty());
        assert(xs.take(xs.len() as int) =~= xs);
        assert(st[0] == s);
        assert(st[xs.len() as int] == Self::spec_prefix(v, 2));
    }

    /// Whether this message declares field number `n`.
    pub open spec fn declares(n: u32) -> bool {
        n == 1 || n == 2
    }

    /// A record with a number this message does not declare is passed over: well-formed
    /// bytes decode to the same message with such a record after them as without it.
    pub proof fn lemma_unknown_field(bytes: Seq<u8>, f: SpecField)
        requires
            parse_fields(bytes) is Ok,
            field_wf(f),
            !Self::declares(f.number),
        ensures
            Self::spec_decode(bytes + field_bytes(f)) == Self::spec_decode(bytes),
    {
        reveal(CPublishedFile_SetPlaytimeForControllerConfigs_Request::spec_decode);
        lemma_parse_fields_append(bytes, f);
        let fs = parse_fields(bytes).unwrap();
        let apply = Self::apply_fn();
        lemma_fold_concat(Self::spec_default(), fs, seq![f], apply);
        assert(fs.push(f) =~= fs + seq![f]);
        if let Ok(w) = fold_fields(Self::spec_default(), fs, apply) {
            lemma_fold_single(w, f, apply);
        }
        lemma_merge_run_fold(Self::spec_default(), bytes, apply);
        lemma_merge_run_fold(Self::spec_default(), bytes + field_bytes(f), apply);
    }

    /// Decoding the encoding of a message gives the message back.
    pub proof fn lemma_decode_encode(v: SpecCPublishedFile_SetPlaytimeForControllerConfigs_Request)
        requires
            Self::spec_encode(v).len() <= u64::MAX,
        ensures
            Self::spec_decode(Self::spec_encode(v)) == Ok::<SpecCPublishedFile_SetPlaytimeForControllerConfigs_Request, WireError>(v),
    {
        let apply = Self::apply_fn();
        let d = Self::spec_default();
        let p0 = Seq::<SpecField>::empty();
        let l1 = opt_u32(1, v.appid);
        let p1 = p0 + l1;
        let l2 = rep_bytes(2, crate::steammessages_publishedfile_steamclient::c_published_file_set_playtime_for_controller_configs_request::ControllerConfigUsage::spec_encode_all(v.controller_config_usage));
        let p2 = p1 + l2;
        assert(parse_fields(Self::spec_encode(v)) == Ok::<Seq<SpecField>, WireError>(p2) && fields_wf(l2)) by {
            reveal(CPublishedFile_SetPlaytimeForControllerConfigs_Request::spec_encode);
            assert(numbers_ok(p0) && fields_wf(p0)) by {
                reveal(numbers_ok);
                reveal(fields_wf);
            }
            lemma_opt_u32_numbered(1, v.appid);
            lemma_fields_wf_concat(p0, l1);
            lemma_rep_bytes_numbered(2, crate::steammessages_publishedfile_steamclient::c_published_file_set_playtime_for_controller_configs_request::ControllerConfigUsage::spec_encode_all(v.controller_config_usage));
            lemma_fields_wf_concat(p1, l2);
            assert(p2 == Self::spec_fields(v));
            lemma_fields_wf_from_len(p2);
            lemma_fields_roundtrip(p2);
        }
        assert(Self::spec_prefix(v, 0) == d) by {
            reveal(CPublishedFile_SetPlaytimeForControllerConfigs_Request::spec_prefix);
        }
        lemma_fold_empty(d, apply);
        lemma_fold_concat(d, p0, l1, apply);
        Self::lemma_field_appid(v);
        lemma_fold_concat(d, p1, l2, apply);
        Self::lemma_field_controller_config_usage(v);
        assert(Self::spec_prefix(v, 2) == v) by {
            reveal(CPublishedFile_SetPlaytimeForControllerConfigs_Request::spec_prefix);
        }
        lemma_merge_run_fold(d, Self::spec_encode(v), apply);
        assert(Self::spec_decode(Self::spec_encode(v)) == Ok::<SpecCPublishedFile_SetPlaytimeForControllerConfigs_Request, WireError>(v)) by {
            reveal(CPublishedFile_SetPlaytimeForControllerConfigs_Request::spec_decode);
        }
    }
}

/// `CPublishedFile_SetPlaytimeForControllerConfigs_Response`, as Valve's schema declares it.
#[derive(Debug, Clone, PartialEq)]
pub struct CPublishedFile_SetPlaytimeForControllerConfigs_Response {}

/// What a `CPublishedFile_SetPlaytimeForControllerConfigs_Response` holds, as mathematical values.
#[verifier::ext_equal]
pub struct SpecCPublishedFile_SetPlaytimeForControllerConfigs_Response {}

impl View for CPublishedFile_SetPlaytimeForControllerConfigs_Response {
    type V = SpecCPublishedFile_SetPlaytimeForControllerConfigs_Response;

    open spec fn view(&self) -> SpecCPublishedFile_SetPlaytimeForControllerConfigs_Response {
        SpecCPublishedFile_SetPlaytimeForControllerConfigs_Response {}
    }
}

impl Default for CPublishedFile_SetPlaytimeForControllerConfigs_Response {
    fn default() -> (r: Self)
        ensures
            r@ == CPublishedFile_SetPlaytimeForControllerConfigs_Response::spec_default(),
    {
        CPublishedFile_SetPlaytimeForControllerConfigs_Response {}
    }
}

impl CPublishedFile_SetPlaytimeForControllerConfigs_Response {
    pub open spec fn spec_default() -> SpecCPublishedFile_SetPlaytimeForControllerConfigs_Response {
        SpecCPublishedFile_SetPlaytimeForControllerConfigs_Response {}
    }

    /// The records a `CPublishedFile_SetPlaytimeForControllerConfigs_Response` is written as, in field order.
    pub open spec fn spec_fields(v: SpecCPublishedFile_SetPlaytimeForControllerConfigs_Response) -> Seq<SpecField> {
        Seq::<SpecField>::empty()
    }

    #[verifier::opaque]
    pub open spec fn spec_encode(v: SpecCPublishedFile_SetPlaytimeForControllerConfigs_Response) -> Seq<u8> {
        fields_bytes(Self::spec_fields(v))
    }

    /// What one record does to the message: a declared number sets or extends its
    /// field, any other number is left alone.
    pub open spec fn spec_apply(v: SpecCPublishedFile_SetPlaytimeForControllerConfigs_Response, f: SpecField) -> Result<SpecCPublishedFile_SetPlaytimeForControllerConfigs_Response, WireError> {
        match f.number {
            _ => Ok(v),
        }
    }

    pub open spec fn apply_fn() -> spec_fn(SpecCPublishedFile_SetPlaytimeForControllerConfigs_Response, SpecField) -> Result<SpecCPublishedFile_SetPlaytimeForControllerConfigs_Response, WireError> {
        |v: SpecCPublishedFile_SetPlaytimeForControllerConfigs_Response, f: SpecField| Self::spec_apply(v, f)
    }

    /// The message `bytes` makes of `v`: its records applied in order, or the error
    /// that stops the reading.
    pub open spec fn spec_merge(v: SpecCPublishedFile_SetPlaytimeForControllerConfigs_Response, bytes: Seq<u8>) -> Result<SpecCPublishedFile_SetPlaytimeForControllerConfigs_Response, WireError> {
        let (w, stop) = merge_run(v, bytes, Self::apply_fn());
        match stop {
            None => Ok(w),
            Some(e) => Err(e),
        }
    }

    #[verifier::opaque]
    pub open spec fn spec_decode(bytes: Seq<u8>) -> Result<SpecCPublishedFile_SetPlaytimeForControllerConfigs_Response, WireError> {
        Self::spec_merge(Self::spec_default(), bytes)
    }

    /// This message with one record applied to it, or, when the record is refused,
    /// the message unchanged and the reason.
    fn applied(self, f: &Field) -> (r: Result<Self, (Self, WireError)>)
        ensures
            match Self::spec_apply(self@, f@) {
                Ok(v) => r matches Ok(m) && m@ == v,
                Err(e) => r matches Err((m, x)) && x == e && m@ == self@,
            },
    {
        match f.number {
            _ => Ok(self),
        }
    }

    /// Reads the records `bytes` holds into this message, in order. When a record does
    /// not parse or is refused, the reading stops there: the message keeps what the
    /// records before it gave, and the error is returned.
    pub fn merge(&mut self, bytes: &[u8]) -> (r: Result<(), WireError>)
        ensures
            final(self)@ == merge_run(old(self)@, bytes@, Self::apply_fn()).0,
            r == match merge_run(old(self)@, bytes@, Self::apply_fn()).1 {
                None => Ok::<(), WireError>(()),
                Some(e) => Err::<(), WireError>(e),
            },
    {
        let ghost total = merge_run(self@, bytes@, Self::apply_fn());
        let mut cur = Self::default();
        std::mem::swap(&mut cur, self);
        let mut pos: usize = 0;
        assert(bytes@.skip(0) =~= bytes@);
        while pos < bytes.len()
            invariant
                pos <= bytes@.len(),
                total == merge_run(old(self)@, bytes@, Self::apply_fn()),
                merge_run(cur@, bytes@.skip(pos as int), Self::apply_fn()) == total,
            decreases bytes@.len() - pos,
        {
            let ghost s = bytes@.skip(pos as int);
            proof {
                lemma_merge_run_step(cur@, s, Self::apply_fn());
                lemma_parse_field_len(s);
            }
            match read_field(bytes, pos) {
                Ok((f, end)) => {
                    assert(bytes@.skip(end as int) =~= s.skip((end - pos) as int));
                    match cur.applied(&f) {
                        Ok(m) => {
                            cur = m;
                        },
                        Err((m, e)) => {
                            *self = m;
                            return Err(e);
                        },
                    }
                    pos = end;
                },
                Err(e) => {
                    *self = cur;
                    return Err(e);
                },
            }
        }
        assert(bytes@.skip(pos as int) =~= Seq::<u8>::empty());
        proof {
            lemma_merge_run_empty(cur@, Self::apply_fn());
        }
        *self = cur;
        Ok(())
    }

    /// Decodes a message from its encoding.
    pub fn decode(bytes: &[u8]) -> (r: Result<Self, WireError>)
        ensures
            match Self::spec_decode(bytes@) {
                Ok(v) => r matches Ok(m) && m@ == v,
                Err(e) => r matches Err(x) && x == e,
            },
    {
        proof {
            reveal(CPublishedFile_SetPlaytimeForControllerConfigs_Response::spec_decode);
        }
        let mut m = Self::default();
        match m.merge(bytes) {
            Ok(()) => Ok(m),
            Err(e) => Err(e),
        }
    }

    /// The encoding of this message.
    pub fn encode_to_vec(&self) -> (r: Vec<u8>)
        ensures
            r@ == Self::spec_encode(self@),
    {
        let ghost v = self@;
        let mut out: Vec<u8> = Vec::new();
        let ghost p0 = Seq::<SpecField>::empty();
        proof {
            reveal(CPublishedFile_SetPlaytimeForControllerConfigs_Response::spec_encode);
        }
        assert(p0 == Self::spec_fields(v));
        assert(out@ =~= fields_bytes(p0));
        out
    }

    /// Appends the encoding of this message to `out`.
    pub fn encode_raw(&self, out: &mut Vec<u8>)
        ensures
            final(out)@ == old(out)@ + Self::spec_encode(self@),
    {
        let mut b = self.encode_to_vec();
        out.append(&mut b);
    }

    /// The first `k` fields of `v`, the others as a fresh message has them.
    #[verifier::opaque]
    pub open spec fn spec_prefix(v: SpecCPublishedFile_SetPlaytimeForControllerConfigs_Response, k: int) -> SpecCPublishedFile_SetPlaytimeForControllerConfigs_Response {
        SpecCPublishedFile_SetPlaytimeForControllerConfigs_Response {}
    }

    /// Whether this message declares field number `n`.
    pub open spec fn declares(n: u32) -> bool {
        false
    }

    /// A record with a number this message does not declare is passed over: well-formed
    /// bytes decode to the same message with such a record after them as without it.
    pub proof fn lemma_unknown_field(bytes: Seq<u8>, f: SpecField)
        requires
            parse_fields(bytes) is Ok,
            field_wf(f),
            !Self::declares(f.number),
        ensures
            Self::spec_decode(bytes + field_bytes(f)) == Self::spec_decode(bytes),
    {
        reveal(CPublishedFile_SetPlaytimeForControllerConfigs_Response::spec_decode);
        lemma_parse_fields_append(bytes, f);
        let fs = parse_fields(bytes).unwrap();
        let apply = Self::apply_fn();
        lemma_fold_concat(Self::spec_default(), fs, seq![f], apply);
        assert(fs.push(f) =~= fs + seq![f]);
        if let Ok(w) = fold_fields(Self::spec_default(), fs, apply) {
            lemma_fold_single(w, f, apply);
        }
        lemma_merge_run_fold(Self::spec_default(), bytes, apply);
        lemma_merge_run_fold(Self::spec_default(), bytes + field_bytes(f), apply);
    }

    /// Decoding the encoding of a message gives the message back.
    pub proof fn lemma_decode_encode(v: SpecCPublishedFile_SetPlaytimeForControllerConfigs_Response)
        requires
            Self::spec_encode(v).len() <= u64::MAX,
        ensures
            Self::spec_decode(Self::spec_encode(v)) == Ok::<SpecCPublishedFile_SetPlaytimeForControllerConfigs_Response, WireError>(v),
    {
        let apply = Self::apply_fn();
        let d = Self::spec_default();
        let p0 = Seq::<SpecField>::empty();
        assert(parse_fields(Self::spec_encode(v)) == Ok::<Seq<SpecField>, WireError>(p0)) by {
            reveal(CPublishedFile_SetPlaytimeForControllerConfigs_Response::spec_encode);
            assert(numbers_ok(p0) && fields_wf(p0)) by {
                reveal(numbers_ok);
                reveal(fields_wf);
            }
            assert(p0 == Self::spec_fields(v));
            lemma_fields_wf_from_len(p0);
            lemma_fields_roundtrip(p0);
        }
        assert(Self::spec_prefix(v, 0) == d) by {
            reveal(CPublishedFile_SetPlaytimeForControllerConfigs_Response::spec_prefix);
        }
        lemma_fold_empty(d, apply);
        assert(Self::spec_prefix(v, 0) == v) by {
            reveal(CPublishedFile_SetPlaytimeForControllerConfigs_Response::spec_prefix);
        }
        lemma_merge_run_fold(d, Self::spec_encode(v), apply);
        assert(Self::spec_decode(Self::spec_encode(v)) == Ok::<SpecCPublishedFile_SetPlaytimeForControllerConfigs_Response, WireError>(v)) by {
            reveal(CPublishedFile_SetPlaytimeForControllerConfigs_Response::spec_decode);
        }
    }
}

/// `CPublishedFile_AddChild_Request`, as Valve's schema declares it.
#[derive(Debug, Clone, PartialEq)]
pub struct CPublishedFile_AddChild_Request {
    /// Field 1.
    pub publishedfileid: Option<u64>,
    /// Field 2.
    pub child_publishedfileid: Option<u64>,
}

/// What a `CPublishedFile_AddChild_Request` holds, as mathematical values.
#[verifier::ext_equal]
pub struct SpecCPublishedFile_AddChild_Request {
    pub publishedfileid: Option<u64>,
    pub child_publishedfileid: Option<u64>,
}

impl View for CPublishedFile_AddChild_Request {
    type V = SpecCPublishedFile_AddChild_Request;

    open spec fn view(&self) -> SpecCPublishedFile_AddChild_Request {
        SpecCPublishedFile_AddChild_Request {
            publishedfileid: self.publishedfileid,
            child_publishedfileid: self.child_publishedfileid,
        }
    }
}

impl Default for CPublishedFile_AddChild_Request {
    fn default() -> (r: Self)
        ensures
            r@ == CPublishedFile_AddChild_Request::spec_default(),
    {
        CPublishedFile_AddChild_Request {
            publishedfileid: None,
            child_publishedfileid: None,
        }
    }
}

impl CPublishedFile_AddChild_Request {
    pub open spec fn spec_default() -> SpecCPublishedFile_AddChild_Request {
        SpecCPublishedFile_AddChild_Request {
            publishedfileid: None,
            child_publishedfileid: None,
        }
    }

    /// The records a `CPublishedFile_AddChild_Request` is written as, in field order.
    pub open spec fn spec_fields(v: SpecCPublishedFile_AddChild_Request) -> Seq<SpecField> {
        Seq::<SpecField>::empty()
            + opt_u64(1, v.publishedfileid)
            + opt_u64(2, v.child_publishedfileid)
    }

    #[verifier::opaque]
    pub open spec fn spec_encode(v: SpecCPublishedFile_AddChild_Request) -> Seq<u8> {
        fields_bytes(Self::spec_fields(v))
    }

    /// What one record does to the message: a declared number sets or extends its
    /// field, any other number is left alone.
    pub open spec fn spec_apply(v: SpecCPublishedFile_AddChild_Request, f: SpecField) -> Result<SpecCPublishedFile_AddChild_Request, WireError> {
        match f.number {
            1 => match dec_u64(f.value) {
                Ok(x) => Ok(SpecCPublishedFile_AddChild_Request { publishedfileid: Some(x), ..v }),
                Err(e) => Err(e),
            },
            2 => match dec_u64(f.value) {
                Ok(x) => Ok(SpecCPublishedFile_AddChild_Request { child_publishedfileid: Some(x), ..v }),
                Err(e) => Err(e),
            },
            _ => Ok(v),
        }
    }

    pub open spec fn apply_fn() -> spec_fn(SpecCPublishedFile_AddChild_Request, SpecField) -> Result<SpecCPublishedFile_AddChild_Request, WireError> {
        |v: SpecCPublishedFile_AddChild_Request, f: SpecField| Self::spec_apply(v, f)
    }

    /// The message `bytes` makes of `v`: its records applied in order, or the error
    /// that stops the reading.
    pub open spec fn spec_merge(v: SpecCPublishedFile_AddChild_Request, bytes: Seq<u8>) -> Result<SpecCPublishedFile_AddChild_Request, WireError> {
        let (w, stop) = merge_run(v, bytes, Self::apply_fn());
        match stop {
            None => Ok(w),
            Some(e) => Err(e),
        }
    }

    #[verifier::opaque]
    pub open spec fn spec_decode(bytes: Seq<u8>) -> Result<SpecCPublishedFile_AddChild_Request, WireError> {
        Self::spec_merge(Self::spec_default(), bytes)
    }

    /// This message with one record applied to it, or, when the record is refused,
    /// the message unchanged and the reason.
    fn applied(self, f: &Field) -> (r: Result<Self, (Self, WireError)>)
        ensures
            match Self::spec_apply(self@, f@) {
                Ok(v) => r matches Ok(m) && m@ == v,
                Err(e) => r matches Err((m, x)) && x == e && m@ == self@,
            },
    {
        match f.number {
            1 => match read_u64(&f.value) {
                Ok(x) => Ok(Self { publishedfileid: Some(x), ..self }),
                Err(e) => Err((self, e)),
            },
            2 => match read_u64(&f.value) {
                Ok(x) => Ok(Self { child_publishedfileid: Some(x), ..self }),
                Err(e) => Err((self, e)),
            },
            _ => Ok(self),
        }
    }

    /// Reads the records `bytes` holds into this message, in order. When a record does
    /// not parse or is refused, the reading stops there: the message keeps what the
    /// records before it gave, and the error is returned.
    pub fn merge(&mut self, bytes: &[u8]) -> (r: Result<(), WireError>)
        ensures
            final(self)@ == merge_run(old(self)@, bytes@, Self::apply_fn()).0,
            r == match merge_run(old(self)@, bytes@, Self::apply_fn()).1 {
                None => Ok::<(), WireError>(()),
                Some(e) => Err::<(), WireError>(e),
            },
    {
        let ghost total = merge_run(self@, bytes@, Self::apply_fn());
        let mut cur = Self::default();
        std::mem::swap(&mut cur, self);
        let mut pos: usize = 0;
        assert(bytes@.skip(0) =~= bytes@);
        while pos < bytes.len()
            invariant
                pos <= bytes@.len(),
                total == merge_run(old(self)@, bytes@, Self::apply_fn()),
                merge_run(cur@, bytes@.skip(pos as int), Self::apply_fn()) == total,
            decreases bytes@.len() - pos,
        {
            let ghost s = bytes@.skip(pos as int);
            proof {
                lemma_merge_run_step(cur@, s, Self::apply_fn());
                lemma_parse_field_len(s);
            }
            match read_field(bytes, pos) {
                Ok((f, end)) => {
                    assert(bytes@.skip(end as int) =~= s.skip((end - pos) as int));
                    match cur.applied(&f) {
                        Ok(m) => {
                            cur = m;
                        },
                        Err((m, e)) => {
                            *self = m;
                            return Err(e);
                        },
                    }
                    pos = end;
                },
                Err(e) => {
                    *self = cur;
                    return Err(e);
                },
            }
        }
        assert(bytes@.skip(pos as int) =~= Seq::<u8>::empty());
        proof {
            lemma_merge_run_empty(cur@, Self::apply_fn());
        }
        *self = cur;
        Ok(())
    }

    /// Decodes a message from its encoding.
    pub fn decode(bytes: &[u8]) -> (r: Result<Self, WireError>)
        ensures
            match Self::spec_decode(bytes@) {
                Ok(v) => r matches Ok(m) && m@ == v,
                Err(e) => r matches Err(x) && x == e,
            },
    {
        proof {
            reveal(CPublishedFile_AddChild_Request::spec_decode);
        }
        let mut m = Self::default();
        match m.merge(bytes) {
            Ok(()) => Ok(m),
            Err(e) => Err(e),
        }
    }

    /// The encoding of this message.
    pub fn encode_to_vec(&self) -> (r: Vec<u8>)
        ensures
            r@ == Self::spec_encode(self@),
    {
        let ghost v = self@;
        let mut out: Vec<u8> = Vec::new();
        let ghost p0 = Seq::<SpecField>::empty();
        put_opt_varint(&mut out, 1, self.publishedfileid);
        let ghost p1 = p0 + opt_u64(1, v.publishedfileid);
        proof {
            lemma_fields_bytes_concat(p0, opt_u64(1, v.publishedfileid));
        }
        put_opt_varint(&mut out, 2, self.child_publishedfileid);
        let ghost p2 = p1 + opt_u64(2, v.child_publishedfileid);
        proof {
            lemma_fields_bytes_concat(p1, opt_u64(2, v.child_publishedfileid));
        }
        proof {
            reveal(CPublishedFile_AddChild_Request::spec_encode);
        }
        assert(p2 == Self::spec_fields(v));
        out
    }

    /// Appends the encoding of this message to `out`.
    pub fn encode_raw(&self, out: &mut Vec<u8>)
        ensures
            final(out)@ == old(out)@ + Self::spec_encode(self@),
    {
        let mut b = self.encode_to_vec();
        out.append(&mut b);
    }

    /// The first `k` fields of `v`, the others as a fresh message has them.
    #[verifier::opaque]
    pub open spec fn spec_prefix(v: SpecCPublishedFile_AddChild_Request, k: int) -> SpecCPublishedFile_AddChild_Request {
        SpecCPublishedFile_AddChild_Request {
            publishedfileid: if 1 <= k { v.publishedfileid } else { None },
            child_publishedfileid: if 2 <= k { v.child_publishedfileid } else { None },
        }
    }

    /// Reading field 1 back, after the fields before it.
    proof fn lemma_field_publishedfileid(v: SpecCPublishedFile_AddChild_Request)
        ensures
            fold_fields(Self::spec_prefix(v, 0), opt_u64(1, v.publishedfileid), Self::apply_fn())
                == Ok::<SpecCPublishedFile_AddChild_Request, WireError>(Self::spec_prefix(v, 1)),
    {
        reveal(CPublishedFile_AddChild_Request::spec_prefix);
        reveal(opt_u64);
        let apply = Self::apply_fn();
        let s = Self::spec_prefix(v, 0);
        lemma_fold_opt(s, 1, match v.publishedfileid { Some(x) => Some(enc_u64(x)), None => None }, apply);
        if let Some(x) = v.publishedfileid {
            lemma_u64_roundtrip(x);
        }
        assert(SpecCPublishedFile_AddChild_Request { publishedfileid: v.publishedfileid, ..s } == Self::spec_prefix(v, 1));
    }

    /// Reading field 2 back, after the fields before it.
    proof fn lemma_field_child_publishedfileid(v: SpecCPublishedFile_AddChild_Request)
        ensures
            fold_fields(Self::spec_prefix(v, 1), opt_u64(2, v.child_publishedfileid), Self::apply_fn())
                == Ok::<SpecCPublishedFile_AddChild_Request, WireError>(Self::spec_prefix(v, 2)),
    {
        reveal(CPublishedFile_AddChild_Request::spec_prefix);
        reveal(opt_u64);
        let apply = Self::apply_fn();
        let s = Self::spec_prefix(v, 1);
        lemma_fold_opt(s, 2, match v.child_publishedfileid { Some(x) => Some(enc_u64(x)), None => None }, apply);
        if let Some(x) = v.child_publishedfileid {
            lemma_u64_roundtrip(x);
        }
        assert(SpecCPublishedFile_AddChild_Request { child_publishedfileid: v.child_publishedfileid, ..s } == Self::spec_prefix(v, 2));
    }

    /// Whether this message declares field number `n`.
    pub open spec fn declares(n: u32) -> bool {
        n == 1 || n == 2
    }

    /// A record with a number this message does not declare is passed over: well-formed
    /// bytes decode to the same message with such a record after them as without it.
    pub proof fn lemma_unknown_field(bytes: Seq<u8>, f: SpecField)
        requires
            parse_fields(bytes) is Ok,
            field_wf(f),
            !Self::declares(f.number),
        ensures
            Self::spec_decode(bytes + field_bytes(f)) == Self::spec_decode(bytes),
    {
        reveal(CPublishedFile_AddChild_Request::spec_decode);
        lemma_parse_fields_append(bytes, f);
        let fs = parse_fields(bytes).unwrap();
        let apply = Self::apply_fn();
        lemma_fold_concat(Self::spec_default(), fs, seq![f], apply);
        assert(fs.push(f) =~= fs + seq![f]);
        if let Ok(w) = fold_fields(Self::spec_default(), fs, apply) {
            lemma_fold_single(w, f, apply);
        }
        lemma_merge_run_fold(Self::spec_default(), bytes, apply);
        lemma_merge_run_fold(Self::spec_default(), bytes + field_bytes(f), apply);
    }

    /// Decoding the encoding of a message gives the message back.
    pub proof fn lemma_decode_encode(v: SpecCPublishedFile_AddChild_Request)
        requires
            Self::spec_encode(v).len() <= u64::MAX,
        ensures
            Self::spec_decode(Self::spec_encode(v)) == Ok::<SpecCPublishedFile_AddChild_Request, WireError>(v),
    {
        let apply = Self::apply_fn();
        let d = Self::spec_default();
        let p0 = Seq::<SpecField>::empty();
        let l1 = opt_u64(1, v.publishedfileid);
        let p1 = p0 + l1;
        let l2 = opt_u64(2, v.child_publishedfileid);
        let p2 = p1 + l2;
        assert(parse_fields(Self::spec_encode(v)) == Ok::<Seq<SpecField>, WireError>(p2)) by {
            reveal(CPublishedFile_AddChild_Request::spec_encode);
            assert(numbers_ok(p0) && fields_wf(p0)) by {
                reveal(numbers_ok);
                reveal(fields_wf);
            }
            lemma_opt_u64_numbered(1, v.publishedfileid);
            lemma_fields_wf_concat(p0, l1);
            lemma_opt_u64_numbered(2, v.child_publishedfileid);
            lemma_fields_wf_concat(p1, l2);
            assert(p2 == Self::spec_fields(v));
            lemma_fields_wf_from_len(p2);
            lemma_fields_roundtrip(p2);
        }
        assert(Self::spec_prefix(v, 0) == d) by {
            reveal(CPublishedFile_AddChild_Request::spec_prefix);
        }
        lemma_fold_empty(d, apply);
        lemma_fold_concat(d, p0, l1, apply);
        Self::lemma_field_publishedfileid(v);
        lemma_fold_concat(d, p1, l2, apply);
        Self::lemma_field_child_publishedfileid(v);
        assert(Self::spec_prefix(v, 2) == v) by {
            reveal(CPublishedFile_AddChild_Request::spec_prefix);
        }
        lemma_merge_run_fold(d, Self::spec_encode(v), apply);
        assert(Self::spec_decode(Self::spec_encode(v)) == Ok::<SpecCPublishedFile_AddChild_Request, WireError>(v)) by {
            reveal(CPublishedFile_AddChild_Request::spec_decode);
        }
    }
}

/// `CPublishedFile_AddChild_Response`, as Valve's schema declares it.
#[derive(Debug, Clone, PartialEq)]
pub struct CPublishedFile_AddChild_Response {}

/// What a `CPublishedFile_AddChild_Response` holds, as mathematical values.
#[verifier::ext_equal]
pub struct SpecCPublishedFile_AddChild_Response {}

impl View for CPublishedFile_AddChild_Response {
    type V = SpecCPublishedFile_AddChild_Response;

    open spec fn view(&self) -> SpecCPublishedFile_AddChild_Response {
        SpecCPublishedFile_AddChild_Response {}
    }
}

impl Default for CPublishedFile_AddChild_Response {
    fn default() -> (r: Self)
        ensures
            r@ == CPublishedFile_AddChild_Response::spec_default(),
    {
        CPublishedFile_AddChild_Response {}
    }
}

impl CPublishedFile_AddChild_Response {
    pub open spec fn spec_default() -> SpecCPublishedFile_AddChild_Response {
        SpecCPublishedFile_AddChild_Response {}
    }

    /// The records a `CPublishedFile_AddChild_Response` is written as, in field order.
    pub open spec fn spec_fields(v: SpecCPublishedFile_AddChild_Response) -> Seq<SpecField> {
        Seq::<SpecField>::empty()
    }

    #[verifier::opaque]
    pub open spec fn spec_encode(v: SpecCPublishedFile_AddChild_Response) -> Seq<u8> {
        fields_bytes(Self::spec_fields(v))
    }

    /// What one record does to the message: a declared number sets or extends its
    /// field, any other number is left alone.
    pub open spec fn spec_apply(v: SpecCPublishedFile_AddChild_Response, f: SpecField) -> Result<SpecCPublishedFile_AddChild_Response, WireError> {
        match f.number {
            _ => Ok(v),
        }
    }

    pub open spec fn apply_fn() -> spec_fn(SpecCPublishedFile_AddChild_Response, SpecField) -> Result<SpecCPublishedFile_AddChild_Response, WireError> {
        |v: SpecCPublishedFile_AddChild_Response, f: SpecField| Self::spec_apply(v, f)
    }

    /// The message `bytes` makes of `v`: its records applied in order, or the error
    /// that stops the reading.
    pub open spec fn spec_merge(v: SpecCPublishedFile_AddChild_Response, bytes: Seq<u8>) -> Result<SpecCPublishedFile_AddChild_Response, WireError> {
        let (w, stop) = merge_run(v, bytes, Self::apply_fn());
        match stop {
            None => Ok(w),
            Some(e) => Err(e),
        }
    }

    #[verifier::opaque]
    pub open spec fn spec_decode(bytes: Seq<u8>) -> Result<SpecCPublishedFile_AddChild_Response, WireError> {
        Self::spec_merge(Self::spec_default(), bytes)
    }

    /// This message with one record applied to it, or, when the record is refused,
    /// the message unchanged and the reason.
    fn applied(self, f: &Field) -> (r: Result<Self, (Self, WireError)>)
        ensures
            match Self::spec_apply(self@, f@) {
                Ok(v) => r matches Ok(m) && m@ == v,
                Err(e) => r matches Err((m, x)) && x == e && m@ == self@,
            },
    {
        match f.number {
            _ => Ok(self),
        }
    }

    /// Reads the records `bytes` holds into this message, in order. When a record does
    /// not parse or is refused, the reading stops there: the message keeps what the
    /// records before it gave, and the error is returned.
    pub fn merge(&mut self, bytes: &[u8]) -> (r: Result<(), WireError>)
        ensures
            final(self)@ == merge_run(old(self)@, bytes@, Self::apply_fn()).0,
            r == match merge_run(old(self)@, bytes@, Self::apply_fn()).1 {
                None => Ok::<(), WireError>(()),
                Some(e) => Err::<(), WireError>(e),
            },
    {
        let ghost total = merge_run(self@, bytes@, Self::apply_fn());
        let mut cur = Self::default();
        std::mem::swap(&mut cur, self);
        let mut pos: usize = 0;
        assert(bytes@.skip(0) =~= bytes@);
        while pos < bytes.len()
            invariant
                pos <= bytes@.len(),
                total == merge_run(old(self)@, bytes@, Self::apply_fn()),
                merge_run(cur@, bytes@.skip(pos as int), Self::apply_fn()) == total,
            decreases bytes@.len() - pos,
        {
            let ghost s = bytes@.skip(pos as int);
            proof {
                lemma_merge_run_step(cur@, s, Self::apply_fn());
                lemma_parse_field_len(s);
            }
            match read_field(bytes, pos) {
                Ok((f, end)) => {
                    assert(bytes@.skip(end as int) =~= s.skip((end - pos) as int));
                    match cur.applied(&f) {
                        Ok(m) => {
                            cur = m;
                        },
                        Err((m, e)) => {
                            *self = m;
                            return Err(e);
                        },
                    }
                    pos = end;
                },
                Err(e) => {
                    *self = cur;
                    return Err(e);
                },
            }
        }
        assert(bytes@.skip(pos as int) =~= Seq::<u8>::empty());
        proof {
            lemma_merge_run_empty(cur@, Self::apply_fn());
        }
        *self = cur;
        Ok(())
    }

    /// Decodes a message from its encoding.
    pub fn decode(bytes: &[u8]) -> (r: Result<Self, WireError>)
        ensures
            match Self::spec_decode(bytes@) {
                Ok(v) => r matches Ok(m) && m@ == v,
                Err(e) => r matches Err(x) && x == e,
            },
    {
        proof {
            reveal(CPublishedFile_AddChild_Response::spec_decode);
        }
        let mut m = Self::default();
        match m.merge(bytes) {
            Ok(()) => Ok(m),
            Err(e) => Err(e),
        }
    }

    /// The encoding of this message.
    pub fn encode_to_vec(&self) -> (r: Vec<u8>)
        ensures
            r@ == Self::spec_encode(self@),
    {
        let ghost v = self@;
        let mut out: Vec<u8> = Vec::new();
        let ghost p0 = Seq::<SpecField>::empty();
        proof {
            reveal(CPublishedFile_AddChild_Response::spec_encode);
        }
        assert(p0 == Self::spec_fields(v));
        assert(out@ =~= fields_bytes(p0));
        out
    }

    /// Appends the encoding of this message to `out`.
    pub fn encode_raw(&self, out: &mut Vec<u8>)
        ensures
            final(out)@ == old(out)@ + Self::spec_encode(self@),
    {
        let mut b = self.encode_to_vec();
        out.append(&mut b);
    }

    /// The first `k` fields of `v`, the others as a fresh message has them.
    #[verifier::opaque]
    pub open spec fn spec_prefix(v: SpecCPublishedFile_AddChild_Response, k: int) -> SpecCPublishedFile_AddChild_Response {
        SpecCPublishedFile_AddChild_Response {}
    }

    /// Whether this message declares field number `n`.
    pub open spec fn declares(n: u32) -> bool {
        false
    }

    /// A record with a number this message does not declare is passed over: well-formed
    /// bytes decode to the same message with such a record after them as without it.
    pub proof fn lemma_unknown_field(bytes: Seq<u8>, f: SpecField)
        requires
            parse_fields(bytes) is Ok,
            field_wf(f),
            !Self::declares(f.number),
        ensures
            Self::spec_decode(bytes + field_bytes(f)) == Self::spec_decode(bytes),
    {
        reveal(CPublishedFile_AddChild_Response::spec_decode);
        lemma_parse_fields_append(bytes, f);
        let fs = parse_fields(bytes).unwrap();
        let apply = Self::apply_fn();
        lemma_fold_concat(Self::spec_default(), fs, seq![f], apply);
        assert(fs.push(f) =~= fs + seq![f]);
        if let Ok(w) = fold_fields(Self::spec_default(), fs, apply) {
            lemma_fold_single(w, f, apply);
        }
        lemma_merge_run_fold(Self::spec_default(), bytes, apply);
        lemma_merge_run_fold(Self::spec_default(), bytes + field_bytes(f), apply);
    }

    /// Decoding the encoding of a message gives the message back.
    pub proof fn lemma_decode_encode(v: SpecCPublishedFile_AddChild_Response)
        requires
            Self::spec_encode(v).len() <= u64::MAX,
        ensures
            Self::spec_decode(Self::spec_encode(v)) == Ok::<SpecCPublishedFile_AddChild_Response, WireError>(v),
    {
        let apply = Self::apply_fn();
        let d = Self::spec_default();
        let p0 = Seq::<SpecField>::empty();
        assert(parse_fields(Self::spec_encode(v)) == Ok::<Seq<SpecField>, WireError>(p0)) by {
            reveal(CPublishedFile_AddChild_Response::spec_encode);
            assert(numbers_ok(p0) && fields_wf(p0)) by {
                reveal(numbers_ok);
                reveal(fields_wf);
            }
            assert(p0 == Self::spec_fields(v));
            lemma_fields_wf_from_len(p0);
            lemma_fields_roundtrip(p0);
        }
        assert(Self::spec_prefix(v, 0) == d) by {
            reveal(CPublishedFile_AddChild_Response::spec_prefix);
        }
        lemma_fold_empty(d, apply);
        assert(Self::spec_prefix(v, 0) == v) by {
            reveal(CPublishedFile_AddChild_Response::spec_prefix);
        }
        lemma_merge_run_fold(d, Self::spec_encode(v), apply);
        assert(Self::spec_decode(Self::spec_encode(v)) == Ok::<SpecCPublishedFile_AddChild_Response, WireError>(v)) by {
            reveal(CPublishedFile_AddChild_Response::spec_decode);
        }
    }
}

/// `CPublishedFile_RemoveChild_Request`, as Valve's schema declares it.
#[derive(Debug, Clone, PartialEq)]
pub struct CPublishedFile_RemoveChild_Request {
    /// Field 1.
    pub publishedfileid: Option<u64>,
    /// Field 2.
    pub child_publishedfileid: Option<u64>,
}

/// What a `CPublishedFile_RemoveChild_Request` holds, as mathematical values.
#[verifier::ext_equal]
pub struct SpecCPublishedFile_RemoveChild_Request {
    pub publishedfileid: Option<u64>,
    pub child_publishedfileid: Option<u64>,
}

impl View for CPublishedFile_RemoveChild_Request {
    type V = SpecCPublishedFile_RemoveChild_Request;

    open spec fn view(&self) -> SpecCPublishedFile_RemoveChild_Request {
        SpecCPublishedFile_RemoveChild_Request {
            publishedfileid: self.publishedfileid,
            child_publishedfileid: self.child_publishedfileid,
        }
    }
}

impl Default for CPublishedFile_RemoveChild_Request {
    fn default() -> (r: Self)
        ensures
            r@ == CPublishedFile_RemoveChild_Request::spec_default(),
    {
        CPublishedFile_RemoveChild_Request {
            publishedfileid: None,
            child_publishedfileid: None,
        }
    }
}

impl CPublishedFile_RemoveChild_Request {
    pub open spec fn spec_default() -> SpecCPublishedFile_RemoveChild_Request {
        SpecCPublishedFile_RemoveChild_Request {
            publishedfileid: None,
            child_publishedfileid: None,
        }
    }

    /// The records a `CPublishedFile_RemoveChild_Request` is written as, in field order.
    pub open spec fn spec_fields(v: SpecCPublishedFile_RemoveChild_Request) -> Seq<SpecField> {
        Seq::<SpecField>::empty()
            + opt_u64(1, v.publishedfileid)
            + opt_u64(2, v.child_publishedfileid)
    }

    #[verifier::opaque]
    pub open spec fn spec_encode(v: SpecCPublishedFile_RemoveChild_Request) -> Seq<u8> {
        fields_bytes(Self::spec_fields(v))
    }

    /// What one record does to the message: a declared number sets or extends its
    /// field, any other number is left alone.
    pub open spec fn spec_apply(v: SpecCPublishedFile_RemoveChild_Request, f: SpecField) -> Result<SpecCPublishedFile_RemoveChild_Request, WireError> {
        match f.number {
            1 => match dec_u64(f.value) {
                Ok(x) => Ok(SpecCPublishedFile_RemoveChild_Request { publishedfileid: Some(x), ..v }),
                Err(e) => Err(e),
            },
            2 => match dec_u64(f.value) {
                Ok(x) => Ok(SpecCPublishedFile_RemoveChild_Request { child_publishedfileid: Some(x), ..v }),
                Err(e) => Err(e),
            },
            _ => Ok(v),
        }
    }

    pub open spec fn apply_fn() -> spec_fn(SpecCPublishedFile_RemoveChild_Request, SpecField) -> Result<SpecCPublishedFile_RemoveChild_Request, WireError> {
        |v: SpecCPublishedFile_RemoveChild_Request, f: SpecField| Self::spec_apply(v, f)
    }

    /// The message `bytes` makes of `v`: its records applied in order, or the error
    /// that stops the reading.
    pub open spec fn spec_merge(v: SpecCPublishedFile_RemoveChild_Request, bytes: Seq<u8>) -> Result<SpecCPublishedFile_RemoveChild_Request, WireError> {
        let (w, stop) = merge_run(v, bytes, Self::apply_fn());
        match stop {
            None => Ok(w),
            Some(e) => Err(e),
        }
    }

    #[verifier::opaque]
    pub open spec fn spec_decode(bytes: Seq<u8>) -> Result<SpecCPublishedFile_RemoveChild_Request, WireError> {
        Self::spec_merge(Self::spec_default(), bytes)
    }

    /// This message with one record applied to it, or, when the record is refused,
    /// the message unchanged and the reason.
    fn applied(self, f: &Field) -> (r: Result<Self, (Self, WireError)>)
        ensures
            match Self::spec_apply(self@, f@) {
                Ok(v) => r matches Ok(m) && m@ == v,
                Err(e) => r matches Err((m, x)) && x == e && m@ == self@,
            },
    {
        match f.number {
            1 => match read_u64(&f.value) {
                Ok(x) => Ok(Self { publishedfileid: Some(x), ..self }),
                Err(e) => Err((self, e)),
            },
            2 => match read_u64(&f.value) {
                Ok(x) => Ok(Self { child_publishedfileid: Some(x), ..self }),
                Err(e) => Err((self, e)),
            },
            _ => Ok(self),
        }
    }

    /// Reads the records `bytes` holds into this message, in order. When a record does
    /// not parse or is refused, the reading stops there: the message keeps what the
    /// records before it gave, and the error is returned.
    pub fn merge(&mut self, bytes: &[u8]) -> (r: Result<(), WireError>)
        ensures
            final(self)@ == merge_run(old(self)@, bytes@, Self::apply_fn()).0,
            r == match merge_run(old(self)@, bytes@, Self::apply_fn()).1 {
                None => Ok::<(), WireError>(()),
                Some(e) => Err::<(), WireError>(e),
            },
    {
        let ghost total = merge_run(self@, bytes@, Self::apply_fn());
        let mut cur = Self::default();
        std::mem::swap(&mut cur, self);
        let mut pos: usize = 0;
        assert(bytes@.skip(0) =~= bytes@);
        while pos < bytes.len()
            invariant
                pos <= bytes@.len(),
                total == merge_run(old(self)@, bytes@, Self::apply_fn()),
                merge_run(cur@, bytes@.skip(pos as int), Self::apply_fn()) == total,
            decreases bytes@.len() - pos,
        {
            let ghost s = bytes@.skip(pos as int);
            proof {
                lemma_merge_run_step(cur@, s, Self::apply_fn());
                lemma_parse_field_len(s);
            }
            match read_field(bytes, pos) {
                Ok((f, end)) => {
                    assert(bytes@.skip(end as int) =~= s.skip((end - pos) as int));
                    match cur.applied(&f) {
                        Ok(m) => {
                            cur = m;
                        },
                        Err((m, e)) => {
                            *self = m;
                            return Err(e);
                        },
                    }
                    pos = end;
                },
                Err(e) => {
                    *self = cur;
                    return Err(e);
                },
            }
        }
        assert(bytes@.skip(pos as int) =~= Seq::<u8>::empty());
        proof {
            lemma_merge_run_empty(cur@, Self::apply_fn());
        }
        *self = cur;
        Ok(())
    }

    /// Decodes a message from its encoding.
    pub fn decode(bytes: &[u8]) -> (r: Result<Self, WireError>)
        ensures
            match Self::spec_decode(bytes@) {
                Ok(v) => r matches Ok(m) && m@ == v,
                Err(e) => r matches Err(x) && x == e,
            },
    {
        proof {
            reveal(CPublishedFile_RemoveChild_Request::spec_decode);
        }
        let mut m = Self::default();
        match m.merge(bytes) {
            Ok(()) => Ok(m),
            Err(e) => Err(e),
        }
    }

    /// The encoding of this message.
    pub fn encode_to_vec(&self) -> (r: Vec<u8>)
        ensures
            r@ == Self::spec_encode(self@),
    {
        let ghost v = self@;
        let mut out: Vec<u8> = Vec::new();
        let ghost p0 = Seq::<SpecField>::empty();
        put_opt_varint(&mut out, 1, self.publishedfileid);
        let ghost p1 = p0 + opt_u64(1, v.publishedfileid);
        proof {
            lemma_fields_bytes_concat(p0, opt_u64(1, v.publishedfileid));
        }
        put_opt_varint(&mut out, 2, self.child_publishedfileid);
        let ghost p2 = p1 + opt_u64(2, v.child_publishedfileid);
        proof {
            lemma_fields_bytes_concat(p1, opt_u64(2, v.child_publishedfileid));
        }
        proof {
            reveal(CPublishedFile_RemoveChild_Request::spec_encode);
        }
        assert(p2 == Self::spec_fields(v));
        out
    }

    /// Appends the encoding of this message to `out`.
    pub fn encode_raw(&self, out: &mut Vec<u8>)
        ensures
            final(out)@ == old(out)@ + Self::spec_encode(self@),
    {
        let mut b = self.encode_to_vec();
        out.append(&mut b);
    }

    /// The first `k` fields of `v`, the others as a fresh message has them.
    #[verifier::opaque]
    pub open spec fn spec_prefix(v: SpecCPublishedFile_RemoveChild_Request, k: int) -> SpecCPublishedFile_RemoveChild_Request {
        SpecCPublishedFile_RemoveChild_Request {
            publishedfileid: if 1 <= k { v.publishedfileid } else { None },
            child_publishedfileid: if 2 <= k { v.child_publishedfileid } else { None },
        }
    }

    /// Reading field 1 back, after the fields before it.
    proof fn lemma_field_publishedfileid(v: SpecCPublishedFile_RemoveChild_Request)
        ensures
            fold_fields(Self::spec_prefix(v, 0), opt_u64(1, v.publishedfileid), Self::apply_fn())
                == Ok::<SpecCPublishedFile_RemoveChild_Request, WireError>(Self::spec_prefix(v, 1)),
    {
        reveal(CPublishedFile_RemoveChild_Request::spec_prefix);
        reveal(opt_u64);
        let apply = Self::apply_fn();
        let s = Self::spec_prefix(v, 0);
        lemma_fold_opt(s, 1, match v.publishedfileid { Some(x) => Some(enc_u64(x)), None => None }, apply);
        if let Some(x) = v.publishedfileid {
            lemma_u64_roundtrip(x);
        }
        assert(SpecCPublishedFile_RemoveChild_Request { publishedfileid: v.publishedfileid, ..s } == Self::spec_prefix(v, 1));
    }

    /// Reading field 2 back, after the fields before it.
    proof fn lemma_field_child_publishedfileid(v: SpecCPublishedFile_RemoveChild_Request)
        ensures
            fold_fields(Self::spec_prefix(v, 1), opt_u64(2, v.child_publishedfileid), Self::apply_fn())
                == Ok::<SpecCPublishedFile_RemoveChild_Request, WireError>(Self::spec_prefix(v, 2)),
    {
        reveal(CPublishedFile_RemoveChild_Request::spec_prefix);
        reveal(opt_u64);
        let apply = Self::apply_fn();
        let s = Self::spec_prefix(v, 1);
        lemma_fold_opt(s, 2, match v.child_publishedfileid { Some(x) => Some(enc_u64(x)), None => None }, apply);
        if let Some(x) = v.child_publishedfileid {
            lemma_u64_roundtrip(x);
        }
        assert(SpecCPublishedFile_RemoveChild_Request { child_publishedfileid: v.child_publishedfileid, ..s } == Self::spec_prefix(v, 2));
    }

    /// Whether this message declares field number `n`.
    pub open spec fn declares(n: u32) -> bool {
        n == 1 || n == 2
    }

    /// A record with a number this message does not declare is passed over: well-formed
    /// bytes decode to the same message with such a record after them as without it.
    pub proof fn lemma_unknown_field(bytes: Seq<u8>, f: SpecField)
        requires
            parse_fields(bytes) is Ok,
            field_wf(f),
            !Self::declares(f.number),
        ensures
            Self::spec_decode(bytes + field_bytes(f)) == Self::spec_decode(bytes),
    {
        reveal(CPublishedFile_RemoveChild_Request::spec_decode);
        lemma_parse_fields_append(bytes, f);
        let fs = parse_fields(bytes).unwrap();
        let apply = Self::apply_fn();
        lemma_fold_concat(Self::spec_default(), fs, seq![f], apply);
        assert(fs.push(f) =~= fs + seq![f]);
        if let Ok(w) = fold_fields(Self::spec_default(), fs, apply) {
            lemma_fold_single(w, f, apply);
        }
        lemma_merge_run_fold(Self::spec_default(), bytes, apply);
        lemma_merge_run_fold(Self::spec_default(), bytes + field_bytes(f), apply);
    }

    /// Decoding the encoding of a message gives the message back.
    pub proof fn lemma_decode_encode(v: SpecCPublishedFile_RemoveChild_Request)
        requires
            Self::spec_encode(v).len() <= u64::MAX,
        ensures
            Self::spec_decode(Self::spec_encode(v)) == Ok::<SpecCPublishedFile_RemoveChild_Request, WireError>(v),
    {
        let apply = Self::apply_fn();
        let d = Self::spec_default();
        let p0 = Seq::<SpecField>::empty();
        let l1 = opt_u64(1, v.publishedfileid);
        let p1 = p0 + l1;
        let l2 = opt_u64(2, v.child_publishedfileid);
        let p2 = p1 + l2;
        assert(parse_fields(Self::spec_encode(v)) == Ok::<Seq<SpecField>, WireError>(p2)) by {
            reveal(CPublishedFile_RemoveChild_Request::spec_encode);
            assert(numbers_ok(p0) && fields_wf(p0)) by {
                reveal(numbers_ok);
                reveal(fields_wf);
            }
            lemma_opt_u64_numbered(1, v.publishedfileid);
            lemma_fields_wf_concat(p0, l1);
            lemma_opt_u64_numbered(2, v.child_publishedfileid);
            lemma_fields_wf_concat(p1, l2);
            assert(p2 == Self::spec_fields(v));
            lemma_fields_wf_from_len(p2);
            lemma_fields_roundtrip(p2);
        }
        assert(Self::spec_prefix(v, 0) == d) by {
            reveal(CPublishedFile_RemoveChild_Request::spec_prefix);
        }
        lemma_fold_empty(d, apply);
        lemma_fold_concat(d, p0, l1, apply);
        Self::lemma_field_publishedfileid(v);
        lemma_fold_concat(d, p1, l2, apply);
        Self::lemma_field_child_publishedfileid(v);
        assert(Self::spec_prefix(v, 2) == v) by {
            reveal(CPublishedFile_RemoveChild_Request::spec_prefix);
        }
        lemma_merge_run_fold(d, Self::spec_encode(v), apply);
        assert(Self::spec_decode(Self::spec_encode(v)) == Ok::<SpecCPublishedFile_RemoveChild_Request, WireError>(v)) by {
            reveal(CPublishedFile_RemoveChild_Request::spec_decode);
        }
    }
}

/// `CPublishedFile_RemoveChild_Response`, as Valve's schema declares it.
#[derive(Debug, Clone, PartialEq)]
pub struct CPublishedFile_RemoveChild_Response {}

/// What a `CPublishedFile_RemoveChild_Response` holds, as mathematical values.
#[verifier::ext_equal]
pub struct SpecCPublishedFile_RemoveChild_Response {}

impl View for CPublishedFile_RemoveChild_Response {
    type V = SpecCPublishedFile_RemoveChild_Response;

    open spec fn view(&self) -> SpecCPublishedFile_RemoveChild_Response {
        SpecCPublishedFile_RemoveChild_Response {}
    }
}

impl Default for CPublishedFile_RemoveChild_Response {
    fn default() -> (r: Self)
        ensures
            r@ == CPublishedFile_RemoveChild_Response::spec_default(),
    {
        CPublishedFile_RemoveChild_Response {}
    }
}

impl CPublishedFile_RemoveChild_Response {
    pub open spec fn spec_default() -> SpecCPublishedFile_RemoveChild_Response {
        SpecCPublishedFile_RemoveChild_Response {}
    }

    /// The records a `CPublishedFile_RemoveChild_Response` is written as, in field order.
    pub open spec fn spec_fields(v: SpecCPublishedFile_RemoveChild_Response) -> Seq<SpecField> {
        Seq::<SpecField>::empty()
    }

    #[verifier::opaque]
    pub open spec fn spec_encode(v: SpecCPublishedFile_RemoveChild_Response) -> Seq<u8> {
        fields_bytes(Self::spec_fields(v))
    }

    /// What one record does to the message: a declared number sets or extends its
    /// field, any other number is left alone.
    pub open spec fn spec_apply(v: SpecCPublishedFile_RemoveChild_Response, f: SpecField) -> Result<SpecCPublishedFile_RemoveChild_Response, WireError> {
        match f.number {
            _ => Ok(v),
        }
    }

    pub open spec fn apply_fn() -> spec_fn(SpecCPublishedFile_RemoveChild_Response, SpecField) -> Result<SpecCPublishedFile_RemoveChild_Response, WireError> {
        |v: SpecCPublishedFile_RemoveChild_Response, f: SpecField| Self::spec_apply(v, f)
    }

    /// The message `bytes` makes of `v`: its records applied in order, or the error
    /// that stops the reading.
    pub open spec fn spec_merge(v: SpecCPublishedFile_RemoveChild_Response, bytes: Seq<u8>) -> Result<SpecCPublishedFile_RemoveChild_Response, WireError> {
        let (w, stop) = merge_run(v, bytes, Self::apply_fn());
        match stop {
            None => Ok(w),
            Some(e) => Err(e),
        }
    }

    #[verifier::opaque]
    pub open spec fn spec_decode(bytes: Seq<u8>) -> Result<SpecCPublishedFile_RemoveChild_Response, WireError> {
        Self::spec_merge(Self::spec_default(), bytes)
    }

    /// This message with one record applied to it, or, when the record is refused,
    /// the message unchanged and the reason.
    fn applied(self, f: &Field) -> (r: Result<Self, (Self, WireError)>)
        ensures
            match Self::spec_apply(self@, f@) {
                Ok(v) => r matches Ok(m) && m@ == v,
                Err(e) => r matches Err((m, x)) && x == e && m@ == self@,
            },
    {
        match f.number {
            _ => Ok(self),
        }
    }

    /// Reads the records `bytes` holds into this message, in order. When a record does
    /// not parse or is refused, the reading stops there: the message keeps what the
    /// records before it gave, and the error is returned.
    pub fn merge(&mut self, bytes: &[u8]) -> (r: Result<(), WireError>)
        ensures
            final(self)@ == merge_run(old(self)@, bytes@, Self::apply_fn()).0,
            r == match merge_run(old(self)@, bytes@, Self::apply_fn()).1 {
                None => Ok::<(), WireError>(()),
                Some(e) => Err::<(), WireError>(e),
            },
    {
        let ghost total = merge_run(self@, bytes@, Self::apply_fn());
        let mut cur = Self::default();
        std::mem::swap(&mut cur, self);
        let mut pos: usize = 0;
        assert(bytes@.skip(0) =~= bytes@);
        while pos < bytes.len()
            invariant
                pos <= bytes@.len(),
                total == merge_run(old(self)@, bytes@, Self::apply_fn()),
                merge_run(cur@, bytes@.skip(pos as int), Self::apply_fn()) == total,
            decreases bytes@.len() - pos,
        {
            let ghost s = bytes@.skip(pos as int);
            proof {
                lemma_merge_run_step(cur@, s, Self::apply_fn());
                lemma_parse_field_len(s);
            }
            match read_field(bytes, pos) {
                Ok((f, end)) => {
                    assert(bytes@.skip(end as int) =~= s.skip((end - pos) as int));
                    match cur.applied(&f) {
                        Ok(m) => {
                            cur = m;
                        },
                        Err((m, e)) => {
                            *self = m;
                            return Err(e);
                        },
                    }
                    pos = end;
                },
                Err(e) => {
                    *self = cur;
                    return Err(e);
                },
            }
        }
        assert(bytes@.skip(pos as int) =~= Seq::<u8>::empty());
        proof {
            lemma_merge_run_empty(cur@, Self::apply_fn());
        }
        *self = cur;
        Ok(())
    }

    /// Decodes a message from its encoding.
    pub fn decode(bytes: &[u8]) -> (r: Result<Self, WireError>)
        ensures
            match Self::spec_decode(bytes@) {
                Ok(v) => r matches Ok(m) && m@ == v,
                Err(e) => r matches Err(x) && x == e,
            },
    {
        proof {
            reveal(CPublishedFile_RemoveChild_Response::spec_decode);
        }
        let mut m = Self::default();
        match m.merge(bytes) {
            Ok(()) => Ok(m),
            Err(e) => Err(e),
        }
    }

    /// The encoding of this message.
    pub fn encode_to_vec(&self) -> (r: Vec<u8>)
        ensures
            r@ == Self::spec_encode(self@),
    {
        let ghost v = self@;
        let mut out: Vec<u8> = Vec::new();
        let ghost p0 = Seq::<SpecField>::empty();
        proof {
            reveal(CPublishedFile_RemoveChild_Response::spec_encode);
        }
        assert(p0 == Self::spec_fields(v));
        assert(out@ =~= fields_bytes(p0));
        out
    }

    /// Appends the encoding of this message to `out`.
    pub fn encode_raw(&self, out: &mut Vec<u8>)
        ensures
            final(out)@ == old(out)@ + Self::spec_encode(self@),
    {
        let mut b = self.encode_to_vec();
        out.append(&mut b);
    }

    /// The first `k` fields of `v`, the others as a fresh message has them.
    #[verifier::opaque]
    pub open spec fn spec_prefix(v: SpecCPublishedFile_RemoveChild_Response, k: int) -> SpecCPublishedFile_RemoveChild_Response {
        SpecCPublishedFile_RemoveChild_Response {}
    }

    /// Whether this message declares field number `n`.
    pub open spec fn declares(n: u32) -> bool {
        false
    }

    /// A record with a number this message does not declare is passed over: well-formed
    /// bytes decode to the same message with such a record after them as without it.
    pub proof fn lemma_unknown_field(bytes: Seq<u8>, f: SpecField)
        requires
            parse_fields(bytes) is Ok,
            field_wf(f),
            !Self::declares(f.number),
        ensures
            Self::spec_decode(bytes + field_bytes(f)) == Self::spec_decode(bytes),
    {
        reveal(CPublishedFile_RemoveChild_Response::spec_decode);
        lemma_parse_fields_append(bytes, f);
        let fs = parse_fields(bytes).unwrap();
        let apply = Self::apply_fn();
        lemma_fold_concat(Self::spec_default(), fs, seq![f], apply);
        assert(fs.push(f) =~= fs + seq![f]);
        if let Ok(w) = fold_fields(Self::spec_default(), fs, apply) {
            lemma_fold_single(w, f, apply);
        }
        lemma_merge_run_fold(Self::spec_default(), bytes, apply);
        lemma_merge_run_fold(Self::spec_default(), bytes + field_bytes(f), apply);
    }

    /// Decoding the encoding of a message gives the message back.
    pub proof fn lemma_decode_encode(v: SpecCPublishedFile_RemoveChild_Response)
        requires
            Self::spec_encode(v).len() <= u64::MAX,
        ensures
            Self::spec_decode(Self::spec_encode(v)) == Ok::<SpecCPublishedFile_RemoveChild_Response, WireError>(v),
    {
        let apply = Self::apply_fn();
        let d = Self::spec_default();
        let p0 = Seq::<SpecField>::empty();
        assert(parse_fields(Self::spec_encode(v)) == Ok::<Seq<SpecField>, WireError>(p0)) by {
            reveal(CPublishedFile_RemoveChild_Response::spec_encode);
            assert(numbers_ok(p0) && fields_wf(p0)) by {
                reveal(numbers_ok);
                reveal(fields_wf);
            }
            assert(p0 == Self::spec_fields(v));
            lemma_fields_wf_from_len(p0);
            lemma_fields_roundtrip(p0);
        }
        assert(Self::spec_prefix(v, 0) == d) by {
            reveal(CPublishedFile_RemoveChild_Response::spec_prefix);
        }
        lemma_fold_empty(d, apply);
        assert(Self::spec_prefix(v, 0) == v) by {
            reveal(CPublishedFile_RemoveChild_Response::spec_prefix);
        }
        lemma_merge_run_fold(d, Self::spec_encode(v), apply);
        assert(Self::spec_decode(Self::spec_encode(v)) == Ok::<SpecCPublishedFile_RemoveChild_Response, WireError>(v)) by {
            reveal(CPublishedFile_RemoveChild_Response::spec_decode);
        }
    }
}

/// `CPublishedFile_SetCollectionChildren_Request`, as Valve's schema declares it.
#[derive(Debug, Clone, PartialEq)]
pub struct CPublishedFile_SetCollectionChildren_Request {
    /// Field 1.
    pub appid: Option<u32>,
    /// Field 2.
    pub publishedfileid: Option<u64>,
    /// Field 3.
    pub children: Vec<u64>,
}

/// What a `CPublishedFile_SetCollectionChildren_Request` holds, as mathematical values.
#[verifier::ext_equal]
pub struct SpecCPublishedFile_SetCollectionChildren_Request {
    pub appid: Option<u32>,
    pub publishedfileid: Option<u64>,
    pub children: Seq<u64>,
}

impl View for CPublishedFile_SetCollectionChildren_Request {
    type V = SpecCPublishedFile_SetCollectionChildren_Request;

    open spec fn view(&self) -> SpecCPublishedFile_SetCollectionChildren_Request {
        SpecCPublishedFile_SetCollectionChildren_Request {
            appid: self.appid,
            publishedfileid: self.publishedfileid,
            children: self.children@,
        }
    }
}

impl Default for CPublishedFile_SetCollectionChildren_Request {
    fn default() -> (r: Self)
        ensures
            r@ == CPublishedFile_SetCollectionChildren_Request::spec_default(),
    {
        CPublishedFile_SetCollectionChildren_Request {
            appid: None,
            publishedfileid: None,
            children: Vec::new(),
        }
    }
}

impl CPublishedFile_SetCollectionChildren_Request {
    pub open spec fn spec_default() -> SpecCPublishedFile_SetCollectionChildren_Request {
        SpecCPublishedFile_SetCollectionChildren_Request {
            appid: None,
            publishedfileid: None,
            children: Seq::empty(),
        }
    }

    /// The records a `CPublishedFile_SetCollectionChildren_Request` is written as, in field order.
    pub open spec fn spec_fields(v: SpecCPublishedFile_SetCollectionChildren_Request) -> Seq<SpecField> {
        Seq::<SpecField>::empty()
            + opt_u32(1, v.appid)
            + opt_u64(2, v.publishedfileid)
            + rep_u64(3, v.children)
    }

    #[verifier::opaque]
    pub open spec fn spec_encode(v: SpecCPublishedFile_SetCollectionChildren_Request) -> Seq<u8> {
        fields_bytes(Self::spec_fields(v))
    }

    /// What one record does to the message: a declared number sets or extends its
    /// field, any other number is left alone.
    pub open spec fn spec_apply(v: SpecCPublishedFile_SetCollectionChildren_Request, f: SpecField) -> Result<SpecCPublishedFile_SetCollectionChildren_Request, WireError> {
        match f.number {
            1 => match dec_u32(f.value) {
                Ok(x) => Ok(SpecCPublishedFile_SetCollectionChildren_Request { appid: Some(x), ..v }),
                Err(e) => Err(e),
            },
            2 => match dec_u64(f.value) {
                Ok(x) => Ok(SpecCPublishedFile_SetCollectionChildren_Request { publishedfileid: Some(x), ..v }),
                Err(e) => Err(e),
            },
            3 => match dec_packed_varint(f.value) {
                Ok(xs) => Ok(SpecCPublishedFile_SetCollectionChildren_Request { children: v.children + xs, ..v }),
                Err(e) => Err(e),
            },
            _ => Ok(v),
        }
    }

    pub open spec fn apply_fn() -> spec_fn(SpecCPublishedFile_SetCollectionChildren_Request, SpecField) -> Result<SpecCPublishedFile_SetCollectionChildren_Request, WireError> {
        |v: SpecCPublishedFile_SetCollectionChildren_Request, f: SpecField| Self::spec_apply(v, f)
    }

    /// The message `bytes` makes of `v`: its records applied in order, or the error
    /// that stops the reading.
    pub open spec fn spec_merge(v: SpecCPublishedFile_SetCollectionChildren_Request, bytes: Seq<u8>) -> Result<SpecCPublishedFile_SetCollectionChildren_Request, WireError> {
        let (w, stop) = merge_run(v, bytes, Self::apply_fn());
        match stop {
            None => Ok(w),
            Some(e) => Err(e),
        }
    }

    #[verifier::opaque]
    pub open spec fn spec_decode(bytes: Seq<u8>) -> Result<SpecCPublishedFile_SetCollectionChildren_Request, WireError> {
        Self::spec_merge(Self::spec_default(), bytes)
    }

    /// This message with one record applied to it, or, when the record is refused,
    /// the message unchanged and the reason.
    fn applied(self, f: &Field) -> (r: Result<Self, (Self, WireError)>)
        ensures
            match Self::spec_apply(self@, f@) {
                Ok(v) => r matches Ok(m) && m@ == v,
                Err(e) => r matches Err((m, x)) && x == e && m@ == self@,
            },
    {
        match f.number {
            1 => match read_u32(&f.value) {
                Ok(x) => Ok(Self { appid: Some(x), ..self }),
                Err(e) => Err((self, e)),
            },
            2 => match read_u64(&f.value) {
                Ok(x) => Ok(Self { publishedfileid: Some(x), ..self }),
                Err(e) => Err((self, e)),
            },
            3 => match read_packed_varints(&f.value) {
                Ok(xs) => {
                    let mut m = self;
                    let mut xs = xs;
                    m.children.append(&mut xs);
                    Ok(m)
                },
                Err(e) => Err((self, e)),
            },
            _ => Ok(self),
        }
    }

    /// Reads the records `bytes` holds into this message, in order. When a record does
    /// not parse or is refused, the reading stops there: the message keeps what the
    /// records before it gave, and the error is returned.
    pub fn merge(&mut self, bytes: &[u8]) -> (r: Result<(), WireError>)
        ensures
            final(self)@ == merge_run(old(self)@, bytes@, Self::apply_fn()).0,
            r == match merge_run(old(self)@, bytes@, Self::apply_fn()).1 {
                None => Ok::<(), WireError>(()),
                Some(e) => Err::<(), WireError>(e),
            },
    {
        let ghost total = merge_run(self@, bytes@, Self::apply_fn());
        let mut cur = Self::default();
        std::mem::swap(&mut cur, self);
        let mut pos: usize = 0;
        assert(bytes@.skip(0) =~= bytes@);
        while pos < bytes.len()
            invariant
                pos <= bytes@.len(),
                total == merge_run(old(self)@, bytes@, Self::apply_fn()),
                merge_run(cur@, bytes@.skip(pos as int), Self::apply_fn()) == total,
            decreases bytes@.len() - pos,
        {
            let ghost s = bytes@.skip(pos as int);
            proof {
                lemma_merge_run_step(cur@, s, Self::apply_fn());
                lemma_parse_field_len(s);
            }
            match read_field(bytes, pos) {
                Ok((f, end)) => {
                    assert(bytes@.skip(end as int) =~= s.skip((end - pos) as int));
                    match cur.applied(&f) {
                        Ok(m) => {
                            cur = m;
                        },
                        Err((m, e)) => {
                            *self = m;
                            return Err(e);
                        },
                    }
                    pos = end;
                },
                Err(e) => {
                    *self = cur;
                    return Err(e);
                },
            }
        }
        assert(bytes@.skip(pos as int) =~= Seq::<u8>::empty());
        proof {
            lemma_merge_run_empty(cur@, Self::apply_fn());
        }
        *self = cur;
        Ok(())
    }

    /// Decodes a message from its encoding.
    pub fn decode(bytes: &[u8]) -> (r: Result<Self, WireError>)
        ensures
            match Self::spec_decode(bytes@) {
                Ok(v) => r matches Ok(m) && m@ == v,
                Err(e) => r matches Err(x) && x == e,
            },
    {
        proof {
            reveal(CPublishedFile_SetCollectionChildren_Request::spec_decode);
        }
        let mut m = Self::default();
        match m.merge(bytes) {
            Ok(()) => Ok(m),
            Err(e) => Err(e),
        }
    }

    /// The encoding of this message.
    pub fn encode_to_vec(&self) -> (r: Vec<u8>)
        ensures
            r@ == Self::spec_encode(self@),
    {
        let ghost v = self@;
        let mut out: Vec<u8> = Vec::new();
        let ghost p0 = Seq::<SpecField>::empty();
        put_opt_u32(&mut out, 1, self.appid);
        let ghost p1 = p0 + opt_u32(1, v.appid);
        proof {
            lemma_fields_bytes_concat(p0, opt_u32(1, v.appid));
        }
        put_opt_varint(&mut out, 2, self.publishedfileid);
        let ghost p2 = p1 + opt_u64(2, v.publishedfileid);
        proof {
            lemma_fields_bytes_concat(p1, opt_u64(2, v.publishedfileid));
        }
        put_rep_u64(&mut out, 3, &self.children);
        let ghost p3 = p2 + rep_u64(3, v.children);
        proof {
            lemma_fields_bytes_concat(p2, rep_u64(3, v.children));
        }
        proof {
            reveal(CPublishedFile_SetCollectionChildren_Request::spec_encode);
        }
        assert(p3 == Self::spec_fields(v));
        out
    }

    /// Appends the encoding of this message to `out`.
    pub fn encode_raw(&self, out: &mut Vec<u8>)
        ensures
            final(out)@ == old(out)@ + Self::spec_encode(self@),
    {
        let mut b = self.encode_to_vec();
        out.append(&mut b);
    }

    /// The first `k` fields of `v`, the others as a fresh message has them.
    #[verifier::opaque]
    pub open spec fn spec_prefix(v: SpecCPublishedFile_SetCollectionChildren_Request, k: int) -> SpecCPublishedFile_SetCollectionChildren_Request {
        SpecCPublishedFile_SetCollectionChildren_Request {
            appid: if 1 <= k { v.appid } else { None },
            publishedfileid: if 2 <= k { v.publishedfileid } else { None },
            children: if 3 <= k { v.children } else { Seq::empty() },
        }
    }

    /// Reading field 1 back, after the fields before it.
    proof fn lemma_field_appid(v: SpecCPublishedFile_SetCollectionChildren_Request)
        ensures
            fold_fields(Self::spec_prefix(v, 0), opt_u32(1, v.appid), Self::apply_fn())
                == Ok::<SpecCPublishedFile_SetCollectionChildren_Request, WireError>(Self::spec_prefix(v, 1)),
    {
        reveal(CPublishedFile_SetCollectionChildren_Request::spec_prefix);
        reveal(opt_u32);
        let apply = Self::apply_fn();
        let s = Self::spec_prefix(v, 0);
        lemma_fold_opt(s, 1, match v.appid { Some(x) => Some(enc_u32(x)), None => None }, apply);
        if let Some(x) = v.appid {
            lemma_u32_roundtrip(x);
        }
        assert(SpecCPublishedFile_SetCollectionChildren_Request { appid: v.appid, ..s } == Self::spec_prefix(v, 1));
    }

    /// Reading field 2 back, after the fields before it.
    proof fn lemma_field_publishedfileid(v: SpecCPublishedFile_SetCollectionChildren_Request)
        ensures
            fold_fields(Self::spec_prefix(v, 1), opt_u64(2, v.publishedfileid), Self::apply_fn())
                == Ok::<SpecCPublishedFile_SetCollectionChildren_Request, WireError>(Self::spec_prefix(v, 2)),
    {
        reveal(CPublishedFile_SetCollectionChildren_Request::spec_prefix);
        reveal(opt_u64);
        let apply = Self::apply_fn();
        let s = Self::spec_prefix(v, 1);
        lemma_fold_opt(s, 2, match v.publishedfileid { Some(x) => Some(enc_u64(x)), None => None }, apply);
        if let Some(x) = v.publishedfileid {
            lemma_u64_roundtrip(x);
        }
        assert(SpecCPublishedFile_SetCollectionChildren_Request { publishedfileid: v.publishedfileid, ..s } == Self::spec_prefix(v, 2));
    }

    /// Reading field 3 back, after the fields before it.
    proof fn lemma_field_children(v: SpecCPublishedFile_SetCollectionChildren_Request)
        ensures
            fold_fields(Self::spec_prefix(v, 2), rep_u64(3, v.children), Self::apply_fn())
                == Ok::<SpecCPublishedFile_SetCollectionChildren_Request, WireError>(Self::spec_prefix(v, 3)),
    {
        reveal(CPublishedFile_SetCollectionChildren_Request::spec_prefix);
        reveal(rep_u64);
        let apply = Self::apply_fn();
        let s = Self::spec_prefix(v, 2);
        let l = rep_u64(3, v.children);
        let xs = v.children;
        let st = Seq::new((xs.len() + 1) as nat, |j: int| SpecCPublishedFile_SetCollectionChildren_Request { children: xs.take(j), ..s });
        assert forall|j: int| 0 <= j < l.len() implies #[trigger] apply(st[j], l[j]) == Ok::<SpecCPublishedFile_SetCollectionChildren_Request, WireError>(st[j + 1]) by {
            lemma_u64_roundtrip(xs[j]);
            assert(xs.take(j) + seq![xs[j]] =~= xs.take(j + 1));
        }
        lemma_fold_chain(l, st, apply);
        assert(xs.take(0) =~= Seq::<u64>::empty());
        assert(xs.take(xs.len() as int) =~= xs);
        assert(st[0] == s);
        assert(st[xs.len() as int] == Self::spec_prefix(v, 3));
    }

    /// Whether this message declares field number `n`.
    pub open spec fn declares(n: u32) -> bool {
        n == 1 || n == 2 || n == 3
    }

    /// A record with a number this message does not declare is passed over: well-formed
    /// bytes decode to the same message with such a record after them as without it.
    pub proof fn lemma_unknown_field(bytes: Seq<u8>, f: SpecField)
        requires
            parse_fields(bytes) is Ok,
            field_wf(f),
            !Self::declares(f.number),
        ensures
            Self::spec_decode(bytes + field_bytes(f)) == Self::spec_decode(bytes),
    {
        reveal(CPublishedFile_SetCollectionChildren_Request::spec_decode);
        lemma_parse_fields_append(bytes, f);
        let fs = parse_fields(bytes).unwrap();
        let apply = Self::apply_fn();
        lemma_fold_concat(Self::spec_default(), fs, seq![f], apply);
        assert(fs.push(f) =~= fs + seq![f]);
        if let Ok(w) = fold_fields(Self::spec_default(), fs, apply) {
            lemma_fold_single(w, f, apply);
        }
        lemma_merge_run_fold(Self::spec_default(), bytes, apply);
        lemma_merge_run_fold(Self::spec_default(), bytes + field_bytes(f), apply);
    }

    /// Decoding the encoding of a message gives the message back.
    pub proof fn lemma_decode_encode(v: SpecCPublishedFile_SetCollectionChildren_Request)
        requires
            Self::spec_encode(v).len() <= u64::MAX,
        ensures
            Self::spec_decode(Self::spec_encode(v)) == Ok::<SpecCPublishedFile_SetCollectionChildren_Request, WireError>(v),
    {
        let apply = Self::apply_fn();
        let d = Self::spec_default();
        let p0 = Seq::<SpecField>::empty();
        let l1 = opt_u32(1, v.appid);
        let p1 = p0 + l1;
        let l2 = opt_u64(2, v.publishedfileid);
        let p2 = p1 + l2;
        let l3 = rep_u64(3, v.children);
        let p3 = p2 + l3;
        assert(parse_fields(Self::spec_encode(v)) == Ok::<Seq<SpecField>, WireError>(p3)) by {
            reveal(CPublishedFile_SetCollectionChildren_Request::spec_encode);
            assert(numbers_ok(p0) && fields_wf(p0)) by {
                reveal(numbers_ok);
                reveal(fields_wf);
            }
            lemma_opt_u32_numbered(1, v.appid);
            lemma_fields_wf_concat(p0, l1);
            lemma_opt_u64_numbered(2, v.publishedfileid);
            lemma_fields_wf_concat(p1, l2);
            lemma_rep_u64_numbered(3, v.children);
            lemma_fields_wf_concat(p2, l3);
            assert(p3 == Self::spec_fields(v));
            lemma_fields_wf_from_len(p3);
            lemma_fields_roundtrip(p3);
        }
        assert(Self::spec_prefix(v, 0) == d) by {
            reveal(CPublishedFile_SetCollectionChildren_Request::spec_prefix);
        }
        lemma_fold_empty(d, apply);
        lemma_fold_concat(d, p0, l1, apply);
        Self::lemma_field_appid(v);
        lemma_fold_concat(d, p1, l2, apply);
        Self::lemma_field_publishedfileid(v);
        lemma_fold_concat(d, p2, l3, apply);
        Self::lemma_field_children(v);
        assert(Self::spec_prefix(v, 3) == v) by {
            reveal(CPublishedFile_SetCollectionChildren_Request::spec_prefix);
        }
        lemma_merge_run_fold(d, Self::spec_encode(v), apply);
        assert(Self::spec_decode(Self::spec_encode(v)) == Ok::<SpecCPublishedFile_SetCollectionChildren_Request, WireError>(v)) by {
            reveal(CPublishedFile_SetCollectionChildren_Request::spec_decode);
        }
    }
}

/// `CPublishedFile_SetCollectionChildren_Response`, as Valve's schema declares it.
#[derive(Debug, Clone, PartialEq)]
pub struct CPublishedFile_SetCollectionChildren_Response {}

/// What a `CPublishedFile_SetCollectionChildren_Response` holds, as mathematical values.
#[verifier::ext_equal]
pub struct SpecCPublishedFile_SetCollectionChildren_Response {}

impl View for CPublishedFile_SetCollectionChildren_Response {
    type V = SpecCPublishedFile_SetCollectionChildren_Response;

    open spec fn view(&self) -> SpecCPublishedFile_SetCollectionChildren_Response {
        SpecCPublishedFile_SetCollectionChildren_Response {}
    }
}

impl Default for CPublishedFile_SetCollectionChildren_Response {
    fn default() -> (r: Self)
        ensures
            r@ == CPublishedFile_SetCollectionChildren_Response::spec_default(),
    {
        CPublishedFile_SetCollectionChildren_Response {}
    }
}

impl CPublishedFile_SetCollectionChildren_Response {
    pub open spec fn spec_default() -> SpecCPublishedFile_SetCollectionChildren_Response {
        SpecCPublishedFile_SetCollectionChildren_Response {}
    }

    /// The records a `CPublishedFile_SetCollectionChildren_Response` is written as, in field order.
    pub open spec fn spec_fields(v: SpecCPublishedFile_SetCollectionChildren_Response) -> Seq<SpecField> {
        Seq::<SpecField>::empty()
    }

    #[verifier::opaque]
    pub open spec fn spec_encode(v: SpecCPublishedFile_SetCollectionChildren_Response) -> Seq<u8> {
        fields_bytes(Self::spec_fields(v))
    }

    /// What one record does to the message: a declared number sets or extends its
    /// field, any other number is left alone.
    pub open spec fn spec_apply(v: SpecCPublishedFile_SetCollectionChildren_Response, f: SpecField) -> Result<SpecCPublishedFile_SetCollectionChildren_Response, WireError> {
        match f.number {
            _ => Ok(v),
        }
    }

    pub open spec fn apply_fn() -> spec_fn(SpecCPublishedFile_SetCollectionChildren_Response, SpecField) -> Result<SpecCPublishedFile_SetCollectionChildren_Response, WireError> {
        |v: SpecCPublishedFile_SetCollectionChildren_Response, f: SpecField| Self::spec_apply(v, f)
    }

    /// The message `bytes` makes of `v`: its records applied in order, or the error
    /// that stops the reading.
    pub open spec fn spec_merge(v: SpecCPublishedFile_SetCollectionChildren_Response, bytes: Seq<u8>) -> Result<SpecCPublishedFile_SetCollectionChildren_Response, WireError> {
        let (w, stop) = merge_run(v, bytes, Self::apply_fn());
        match stop {
            None => Ok(w),
            Some(e) => Err(e),
        }
    }

    #[verifier::opaque]
    pub open spec fn spec_decode(bytes: Seq<u8>) -> Result<SpecCPublishedFile_SetCollectionChildren_Response, WireError> {
        Self::spec_merge(Self::spec_default(), bytes)
    }

    /// This message with one record applied to it, or, when the record is refused,
    /// the message unchanged and the reason.
    fn applied(self, f: &Field) -> (r: Result<Self, (Self, WireError)>)
        ensures
            match Self::spec_apply(self@, f@) {
                Ok(v) => r matches Ok(m) && m@ == v,
                Err(e) => r matches Err((m, x)) && x == e && m@ == self@,
            },
    {
        match f.number {
            _ => Ok(self),
        }
    }

    /// Reads the records `bytes` holds into this message, in order. When a record does
    /// not parse or is refused, the reading stops there: the message keeps what the
    /// records before it gave, and the error is returned.
    pub fn merge(&mut self, bytes: &[u8]) -> (r: Result<(), WireError>)
        ensures
            final(self)@ == merge_run(old(self)@, bytes@, Self::apply_fn()).0,
            r == match merge_run(old(self)@, bytes@, Self::apply_fn()).1 {
                None => Ok::<(), WireError>(()),
                Some(e) => Err::<(), WireError>(e),
            },
    {
        let ghost total = merge_run(self@, bytes@, Self::apply_fn());
        let mut cur = Self::default();
        std::mem::swap(&mut cur, self);
        let mut pos: usize = 0;
        assert(bytes@.skip(0) =~= bytes@);
        while pos < bytes.len()
            invariant
                pos <= bytes@.len(),
                total == merge_run(old(self)@, bytes@, Self::apply_fn()),
                merge_run(cur@, bytes@.skip(pos as int), Self::apply_fn()) == total,
            decreases bytes@.len() - pos,
        {
            let ghost s = bytes@.skip(pos as int);
            proof {
                lemma_merge_run_step(cur@, s, Self::apply_fn());
                lemma_parse_field_len(s);
            }
            match read_field(bytes, pos) {
                Ok((f, end)) => {
                    assert(bytes@.skip(end as int) =~= s.skip((end - pos) as int));
                    match cur.applied(&f) {
                        Ok(m) => {
                            cur = m;
                        },
                        Err((m, e)) => {
                            *self = m;
                            return Err(e);
                        },
                    }
                    pos = end;
                },
                Err(e) => {
                    *self = cur;
                    return Err(e);
                },
            }
        }
        assert(bytes@.skip(pos as int) =~= Seq::<u8>::empty());
        proof {
            lemma_merge_run_empty(cur@, Self::apply_fn());
        }
        *self = cur;
        Ok(())
    }

    /// Decodes a message from its encoding.
    pub fn decode(bytes: &[u8]) -> (r: Result<Self, WireError>)
        ensures
            match Self::spec_decode(bytes@) {
                Ok(v) => r matches Ok(m) && m@ == v,
                Err(e) => r matches Err(x) && x == e,
            },
    {
        proof {
            reveal(CPublishedFile_SetCollectionChildren_Response::spec_decode);
        }
        let mut m = Self::default();
        match m.merge(bytes) {
            Ok(()) => Ok(m),
            Err(e) => Err(e),
        }
    }

    /// The encoding of this message.
    pub fn encode_to_vec(&self) -> (r: Vec<u8>)
        ensures
            r@ == Self::spec_encode(self@),
    {
        let ghost v = self@;
        let mut out: Vec<u8> = Vec::new();
        let ghost p0 = Seq::<SpecField>::empty();
        proof {
            reveal(CPublishedFile_SetCollectionChildren_Response::spec_encode);
        }
        assert(p0 == Self::spec_fields(v));
        assert(out@ =~= fields_bytes(p0));
        out
    }

    /// Appends the encoding of this message to `out`.
    pub fn encode_raw(&self, out: &mut Vec<u8>)
        ensures
            final(out)@ == old(out)@ + Self::spec_encode(self@),
    {
        let mut b = self.encode_to_vec();
        out.append(&mut b);
    }

    /// The first `k` fields of `v`, the others as a fresh message has them.
    #[verifier::opaque]
    pub open spec fn spec_prefix(v: SpecCPublishedFile_SetCollectionChildren_Response, k: int) -> SpecCPublishedFile_SetCollectionChildren_Response {
        SpecCPublishedFile_SetCollectionChildren_Response {}
    }

    /// Whether this message declares field number `n`.
    pub open spec fn declares(n: u32) -> bool {
        false
    }

    /// A record with a number this message does not declare is passed over: well-formed
    /// bytes decode to the same message with such a record after them as without it.
    pub proof fn lemma_unknown_field(bytes: Seq<u8>, f: SpecField)
        requires
            parse_fields(bytes) is Ok,
            field_wf(f),
            !Self::declares(f.number),
        ensures
            Self::spec_decode(bytes + field_bytes(f)) == Self::spec_decode(bytes),
    {
        reveal(CPublishedFile_SetCollectionChildren_Response::spec_decode);
        lemma_parse_fields_append(bytes, f);
        let fs = parse_fields(bytes).unwrap();
        let apply = Self::apply_fn();
        lemma_fold_concat(Self::spec_default(), fs, seq![f], apply);
        assert(fs.push(f) =~= fs + seq![f]);
        if let Ok(w) = fold_fields(Self::spec_default(), fs, apply) {
            lemma_fold_single(w, f, apply);
        }
        lemma_merge_run_fold(Self::spec_default(), bytes, apply);
        lemma_merge_run_fold(Self::spec_default(), bytes + field_bytes(f), apply);
    }

    /// Decoding the encoding of a message gives the message back.
    pub proof fn lemma_decode_encode(v: SpecCPublishedFile_SetCollectionChildren_Response)
        requires
            Self::spec_encode(v).len() <= u64::MAX,
        ensures
            Self::spec_decode(Self::spec_encode(v)) == Ok::<SpecCPublishedFile_SetCollectionChildren_Response, WireError>(v),
    {
        let apply = Self::apply_fn();
        let d = Self::spec_default();
        let p0 = Seq::<SpecField>::empty();
        assert(parse_fields(Self::spec_encode(v)) == Ok::<Seq<SpecField>, WireError>(p0)) by {
            reveal(CPublishedFile_SetCollectionChildren_Response::spec_encode);
            assert(numbers_ok(p0) && fields_wf(p0)) by {
                reveal(numbers_ok);
                reveal(fields_wf);
            }
            assert(p0 == Self::spec_fields(v));
            lemma_fields_wf_from_len(p0);
            lemma_fields_roundtrip(p0);
        }
        assert(Self::spec_prefix(v, 0) == d) by {
            reveal(CPublishedFile_SetCollectionChildren_Response::spec_prefix);
        }
        lemma_fold_empty(d, apply);
        assert(Self::spec_prefix(v, 0) == v) by {
            reveal(CPublishedFile_SetCollectionChildren_Response::spec_prefix);
        }
        lemma_merge_run_fold(d, Self::spec_encode(v), apply);
        assert(Self::spec_decode(Self::spec_encode(v)) == Ok::<SpecCPublishedFile_SetCollectionChildren_Response, WireError>(v)) by {
            reveal(CPublishedFile_SetCollectionChildren_Response::spec_decode);
        }
    }
}

/// `CPublishedFile_SetSubscriptionListFromCollection_Request`, as Valve's schema declares it.
#[derive(Debug, Clone, PartialEq)]
pub struct CPublishedFile_SetSubscriptionListFromCollection_Request {
    /// Field 1.
    pub appid: Option<u32>,
    /// Field 2.
    pub list_type: Option<u32>,
    /// Field 3.
    pub publishedfileid: Option<u64>,
    /// Field 4.
    pub add_only: Option<bool>,
}

/// What a `CPublishedFile_SetSubscriptionListFromCollection_Request` holds, as mathematical values.
#[verifier::ext_equal]
pub struct SpecCPublishedFile_SetSubscriptionListFromCollection_Request {
    pub appid: Option<u32>,
    pub list_type: Option<u32>,
    pub publishedfileid: Option<u64>,
    pub add_only: Option<bool>,
}

impl View for CPublishedFile_SetSubscriptionListFromCollection_Request {
    type V = SpecCPublishedFile_SetSubscriptionListFromCollection_Request;

    open spec fn view(&self) -> SpecCPublishedFile_SetSubscriptionListFromCollection_Request {
        SpecCPublishedFile_SetSubscriptionListFromCollection_Request {
            appid: self.appid,
            list_type: self.list_type,
            publishedfileid: self.publishedfileid,
            add_only: self.add_only,
        }
    }
}

impl Default for CPublishedFile_SetSubscriptionListFromCollection_Request {
    fn default() -> (r: Self)
        ensures
            r@ == CPublishedFile_SetSubscriptionListFromCollection_Request::spec_default(),
    {
        CPublishedFile_SetSubscriptionListFromCollection_Request {
            appid: None,
            list_type: None,
            publishedfileid: None,
            add_only: None,
        }
    }
}

impl CPublishedFile_SetSubscriptionListFromCollection_Request {
    pub open spec fn spec_default() -> SpecCPublishedFile_SetSubscriptionListFromCollection_Request {
        SpecCPublishedFile_SetSubscriptionListFromCollection_Request {
            appid: None,
            list_type: None,
            publishedfileid: None,
            add_only: None,
        }
    }

    /// The records a `CPublishedFile_SetSubscriptionListFromCollection_Request` is written as, in field order.
    pub open spec fn spec_fields(v: SpecCPublishedFile_SetSubscriptionListFromCollection_Request) -> Seq<SpecField> {
        Seq::<SpecField>::empty()
            + opt_u32(1, v.appid)
            + opt_u32(2, v.list_type)
            + opt_u64(3, v.publishedfileid)
            + opt_bool(4, v.add_only)
    }

    #[verifier::opaque]
    pub open spec fn spec_encode(v: SpecCPublishedFile_SetSubscriptionListFromCollection_Request) -> Seq<u8> {
        fields_bytes(Self::spec_fields(v))
    }

    /// What one record does to the message: a declared number sets or extends its
    /// field, any other number is left alone.
    pub open spec fn spec_apply(v: SpecCPublishedFile_SetSubscriptionListFromCollection_Request, f: SpecField) -> Result<SpecCPublishedFile_SetSubscriptionListFromCollection_Request, WireError> {
        match f.number {
            1 => match dec_u32(f.value) {
                Ok(x) => Ok(SpecCPublishedFile_SetSubscriptionListFromCollection_Request { appid: Some(x), ..v }),
                Err(e) => Err(e),
            },
            2 => match dec_u32(f.value) {
                Ok(x) => Ok(SpecCPublishedFile_SetSubscriptionListFromCollection_Request { list_type: Some(x), ..v }),
                Err(e) => Err(e),
            },
            3 => match dec_u64(f.value) {
                Ok(x) => Ok(SpecCPublishedFile_SetSubscriptionListFromCollection_Request { publishedfileid: Some(x), ..v }),
                Err(e) => Err(e),
            },
            4 => match dec_bool(f.value) {
                Ok(x) => Ok(SpecCPublishedFile_SetSubscriptionListFromCollection_Request { add_only: Some(x), ..v }),
                Err(e) => Err(e),
            },
            _ => Ok(v),
        }
    }

    pub open spec fn apply_fn() -> spec_fn(SpecCPublishedFile_SetSubscriptionListFromCollection_Request, SpecField) -> Result<SpecCPublishedFile_SetSubscriptionListFromCollection_Request, WireError> {
        |v: SpecCPublishedFile_SetSubscriptionListFromCollection_Request, f: SpecField| Self::spec_apply(v, f)
    }

    /// The message `bytes` makes of `v`: its records applied in order, or the error
    /// that stops the reading.
    pub open spec fn spec_merge(v: SpecCPublishedFile_SetSubscriptionListFromCollection_Request, bytes: Seq<u8>) -> Result<SpecCPublishedFile_SetSubscriptionListFromCollection_Request, WireError> {
        let (w, stop) = merge_run(v, bytes, Self::apply_fn());
        match stop {
            None => Ok(w),
            Some(e) => Err(e),
        }
    }

    #[verifier::opaque]
    pub open spec fn spec_decode(bytes: Seq<u8>) -> Result<SpecCPublishedFile_SetSubscriptionListFromCollection_Request, WireError> {
        Self::spec_merge(Self::spec_default(), bytes)
    }

    /// This message with one record applied to it, or, when the record is refused,
    /// the message unchanged and the reason.
    fn applied(self, f: &Field) -> (r: Result<Self, (Self, WireError)>)
        ensures
            match Self::spec_apply(self@, f@) {
                Ok(v) => r matches Ok(m) && m@ == v,
                Err(e) => r matches Err((m, x)) && x == e && m@ == self@,
            },
    {
        match f.number {
            1 => match read_u32(&f.value) {
                Ok(x) => Ok(Self { appid: Some(x), ..self }),
                Err(e) => Err((self, e)),
            },
            2 => match read_u32(&f.value) {
                Ok(x) => Ok(Self { list_type: Some(x), ..self }),
                Err(e) => Err((self, e)),
            },
            3 => match read_u64(&f.value) {
                Ok(x) => Ok(Self { publishedfileid: Some(x), ..self }),
                Err(e) => Err((self, e)),
            },
            4 => match read_bool(&f.value) {
                Ok(x) => Ok(Self { add_only: Some(x), ..self }),
                Err(e) => Err((self, e)),
            },
            _ => Ok(self),
        }
    }

    /// Reads the records `bytes` holds into this message, in order. When a record does
    /// not parse or is refused, the reading stops there: the message keeps what the
    /// records before it gave, and the error is returned.
    pub fn merge(&mut self, bytes: &[u8]) -> (r: Result<(), WireError>)
        ensures
            final(self)@ == merge_run(old(self)@, bytes@, Self::apply_fn()).0,
            r == match merge_run(old(self)@, bytes@, Self::apply_fn()).1 {
                None => Ok::<(), WireError>(()),
                Some(e) => Err::<(), WireError>(e),
            },
    {
        let ghost total = merge_run(self@, bytes@, Self::apply_fn());
        let mut cur = Self::default();
        std::mem::swap(&mut cur, self);
        let mut pos: usize = 0;
        assert(bytes@.skip(0) =~= bytes@);
        while pos < bytes.len()
            invariant
                pos <= bytes@.len(),
                total == merge_run(old(self)@, bytes@, Self::apply_fn()),
                merge_run(cur@, bytes@.skip(pos as int), Self::apply_fn()) == total,
            decreases bytes@.len() - pos,
        {
            let ghost s = bytes@.skip(pos as int);
            proof {
                lemma_merge_run_step(cur@, s, Self::apply_fn());
                lemma_parse_field_len(s);
            }
            match read_field(bytes, pos) {
                Ok((f, end)) => {
                    assert(bytes@.skip(end as int) =~= s.skip((end - pos) as int));
                    match cur.applied(&f) {
                        Ok(m) => {
                            cur = m;
                        },
                        Err((m, e)) => {
                            *self = m;
                            return Err(e);
                        },
                    }
                    pos = end;
                },
                Err(e) => {
                    *self = cur;
                    return Err(e);
                },
            }
        }
        assert(bytes@.skip(pos as int) =~= Seq::<u8>::empty());
        proof {
            lemma_merge_run_empty(cur@, Self::apply_fn());
        }
        *self = cur;
        Ok(())
    }

    /// Decodes a message from its encoding.
    pub fn decode(bytes: &[u8]) -> (r: Result<Self, WireError>)
        ensures
            match Self::spec_decode(bytes@) {
                Ok(v) => r matches Ok(m) && m@ == v,
                Err(e) => r matches Err(x) && x == e,
            },
    {
        proof {
            reveal(CPublishedFile_SetSubscriptionListFromCollection_Request::spec_decode);
        }
        let mut m = Self::default();
        match m.merge(bytes) {
            Ok(()) => Ok(m),
            Err(e) => Err(e),
        }
    }

    /// The encoding of this message.
    pub fn encode_to_vec(&self) -> (r: Vec<u8>)
        ensures
            r@ == Self::spec_encode(self@),
    {
        let ghost v = self@;
        let mut out: Vec<u8> = Vec::new();
        let ghost p0 = Seq::<SpecField>::empty();
        put_opt_u32(&mut out, 1, self.appid);
        let ghost p1 = p0 + opt_u32(1, v.appid);
        proof {
            lemma_fields_bytes_concat(p0, opt_u32(1, v.appid));
        }
        put_opt_u32(&mut out, 2, self.list_type);
        let ghost p2 = p1 + opt_u32(2, v.list_type);
        proof {
            lemma_fields_bytes_concat(p1, opt_u32(2, v.list_type));
        }
        put_opt_varint(&mut out, 3, self.publishedfileid);
        let ghost p3 = p2 + opt_u64(3, v.publishedfileid);
        proof {
            lemma_fields_bytes_concat(p2, opt_u64(3, v.publishedfileid));
        }
        put_opt_bool(&mut out, 4, self.add_only);
        let ghost p4 = p3 + opt_bool(4, v.add_only);
        proof {
            lemma_fields_bytes_concat(p3, opt_bool(4, v.add_only));
        }
        proof {
            reveal(CPublishedFile_SetSubscriptionListFromCollection_Request::spec_encode);
        }
        assert(p4 == Self::spec_fields(v));
        out
    }

    /// Appends the encoding of this message to `out`.
    pub fn encode_raw(&self, out: &mut Vec<u8>)
        ensures
            final(out)@ == old(out)@ + Self::spec_encode(self@),
    {
        let mut b = self.encode_to_vec();
        out.append(&mut b);
    }

    /// The first `k` fields of `v`, the others as a fresh message has them.
    #[verifier::opaque]
    pub open spec fn spec_prefix(v: SpecCPublishedFile_SetSubscriptionListFromCollection_Request, k: int) -> SpecCPublishedFile_SetSubscriptionListFromCollection_Request {
        SpecCPublishedFile_SetSubscriptionListFromCollection_Request {
            appid: if 1 <= k { v.appid } else { None },
            list_type: if 2 <= k { v.list_type } else { None },
            publishedfileid: if 3 <= k { v.publishedfileid } else { None },
            add_only: if 4 <= k { v.add_only } else { None },
        }
    }

    /// Reading field 1 back, after the fields before it.
    proof fn lemma_field_appid(v: SpecCPublishedFile_SetSubscriptionListFromCollection_Request)
        ensures
            fold_fields(Self::spec_prefix(v, 0), opt_u32(1, v.appid), Self::apply_fn())
                == Ok::<SpecCPublishedFile_SetSubscriptionListFromCollection_Request, WireError>(Self::spec_prefix(v, 1)),
    {
        reveal(CPublishedFile_SetSubscriptionListFromCollection_Request::spec_prefix);
        reveal(opt_u32);
        let apply = Self::apply_fn();
        let s = Self::spec_prefix(v, 0);
        lemma_fold_opt(s, 1, match v.appid { Some(x) => Some(enc_u32(x)), None => None }, apply);
        if let Some(x) = v.appid {
            lemma_u32_roundtrip(x);
        }
        assert(SpecCPublishedFile_SetSubscriptionListFromCollection_Request { appid: v.appid, ..s } == Self::spec_prefix(v, 1));
    }

    /// Reading field 2 back, after the fields before it.
    proof fn lemma_field_list_type(v: SpecCPublishedFile_SetSubscriptionListFromCollection_Request)
        ensures
            fold_fields(Self::spec_prefix(v, 1), opt_u32(2, v.list_type), Self::apply_fn())
                == Ok::<SpecCPublishedFile_SetSubscriptionListFromCollection_Request, WireError>(Self::spec_prefix(v, 2)),
    {
        reveal(CPublishedFile_SetSubscriptionListFromCollection_Request::spec_prefix);
        reveal(opt_u32);
        let apply = Self::apply_fn();
        let s = Self::spec_prefix(v, 1);
        lemma_fold_opt(s, 2, match v.list_type { Some(x) => Some(enc_u32(x)), None => None }, apply);
        if let Some(x) = v.list_type {
            lemma_u32_roundtrip(x);
        }
        assert(SpecCPublishedFile_SetSubscriptionListFromCollection_Request { list_type: v.list_type, ..s } == Self::spec_prefix(v, 2));
    }

    /// Reading field 3 back, after the fields before it.
    proof fn lemma_field_publishedfileid(v: SpecCPublishedFile_SetSubscriptionListFromCollection_Request)
        ensures
            fold_fields(Self::spec_prefix(v, 2), opt_u64(3, v.publishedfileid), Self::apply_fn())
                == Ok::<SpecCPublishedFile_SetSubscriptionListFromCollection_Request, WireError>(Self::spec_prefix(v, 3)),
    {
        reveal(CPublishedFile_SetSubscriptionListFromCollection_Request::spec_prefix);
        reveal(opt_u64);
        let apply = Self::apply_fn();
        let s = Self::spec_prefix(v, 2);
        lemma_fold_opt(s, 3, match v.publishedfileid { Some(x) => Some(enc_u64(x)), None => None }, apply);
        if let Some(x) = v.publishedfileid {
            lemma_u64_roundtrip(x);
        }
        assert(SpecCPublishedFile_SetSubscriptionListFromCollection_Request { publishedfileid: v.publishedfileid, ..s } == Self::spec_prefix(v, 3));
    }

    /// Reading field 4 back, after the fields before it.
    proof fn lemma_field_add_only(v: SpecCPublishedFile_SetSubscriptionListFromCollection_Request)
        ensures
            fold_fields(Self::spec_prefix(v, 3), opt_bool(4, v.add_only), Self::apply_fn())
                == Ok::<SpecCPublishedFile_SetSubscriptionListFromCollection_Request, WireError>(Self::spec_prefix(v, 4)),
    {
        reveal(CPublishedFile_SetSubscriptionListFromCollection_Request::spec_prefix);
        reveal(opt_bool);
        let apply = Self::apply_fn();
        let s = Self::spec_prefix(v, 3);
        lemma_fold_opt(s, 4, match v.add_only { Some(x) => Some(enc_bool(x)), None => None }, apply);
        assert(SpecCPublishedFile_SetSubscriptionListFromCollection_Request { add_only: v.add_only, ..s } == Self::spec_prefix(v, 4));
    }

    /// Whether this message declares field number `n`.
    pub open spec fn declares(n: u32) -> bool {
        n == 1 || n == 2 || n == 3 || n == 4
    }

    /// A record with a number this message does not declare is passed over: well-formed
    /// bytes decode to the same message with such a record after them as without it.
    pub proof fn lemma_unknown_field(bytes: Seq<u8>, f: SpecField)
        requires
            parse_fields(bytes) is Ok,
            field_wf(f),
            !Self::declares(f.number),
        ensures
            Self::spec_decode(bytes + field_bytes(f)) == Self::spec_decode(bytes),
    {
        reveal(CPublishedFile_SetSubscriptionListFromCollection_Request::spec_decode);
        lemma_parse_fields_append(bytes, f);
        let fs = parse_fields(bytes).unwrap();
        let apply = Self::apply_fn();
        lemma_fold_concat(Self::spec_default(), fs, seq![f], apply);
        assert(fs.push(f) =~= fs + seq![f]);
        if let Ok(w) = fold_fields(Self::spec_default(), fs, apply) {
            lemma_fold_single(w, f, apply);
        }
        lemma_merge_run_fold(Self::spec_default(), bytes, apply);
        lemma_merge_run_fold(Self::spec_default(), bytes + field_bytes(f), apply);
    }

    /// Decoding the encoding of a message gives the message back.
    pub proof fn lemma_decode_encode(v: SpecCPublishedFile_SetSubscriptionListFromCollection_Request)
        requires
            Self::spec_encode(v).len() <= u64::MAX,
        ensures
            Self::spec_decode(Self::spec_encode(v)) == Ok::<SpecCPublishedFile_SetSubscriptionListFromCollection_Request, WireError>(v),
    {
        let apply = Self::apply_fn();
        let d = Self::spec_default();
        let p0 = Seq::<SpecField>::empty();
        let l1 = opt_u32(1, v.appid);
        let p1 = p0 + l1;
        let l2 = opt_u32(2, v.list_type);
        let p2 = p1 + l2;
        let l3 = opt_u64(3, v.publishedfileid);
        let p3 = p2 + l3;
        let l4 = opt_bool(4, v.add_only);
        let p4 = p3 + l4;
        assert(parse_fields(Self::spec_encode(v)) == Ok::<Seq<SpecField>, WireError>(p4)) by {
            reveal(CPublishedFile_SetSubscriptionListFromCollection_Request::spec_encode);
            assert(numbers_ok(p0) && fields_wf(p0)) by {
                reveal(numbers_ok);
                reveal(fields_wf);
            }
            lemma_opt_u32_numbered(1, v.appid);
            lemma_fields_wf_concat(p0, l1);
            lemma_opt_u32_numbered(2, v.list_type);
            lemma_fields_wf_concat(p1, l2);
            lemma_opt_u64_numbered(3, v.publishedfileid);
            lemma_fields_wf_concat(p2, l3);
            lemma_opt_bool_numbered(4, v.add_only);
            lemma_fields_wf_concat(p3, l4);
            assert(p4 == Self::spec_fields(v));
            lemma_fields_wf_from_len(p4);
            lemma_fields_roundtrip(p4);
        }
        assert(Self::spec_prefix(v, 0) == d) by {
            reveal(CPublishedFile_SetSubscriptionListFromCollection_Request::spec_prefix);
        }
        lemma_fold_empty(d, apply);
        lemma_fold_concat(d, p0, l1, apply);
        Self::lemma_field_appid(v);
        lemma_fold_concat(d, p1, l2, apply);
        Self::lemma_field_list_type(v);
        lemma_fold_concat(d, p2, l3, apply);
        Self::lemma_field_publishedfileid(v);
        lemma_fold_concat(d, p3, l4, apply);
        Self::lemma_field_add_only(v);
        assert(Self::spec_prefix(v, 4) == v) by {
            reveal(CPublishedFile_SetSubscriptionListFromCollection_Request::spec_prefix);
        }
        lemma_merge_run_fold(d, Self::spec_encode(v), apply);
        assert(Self::spec_decode(Self::spec_encode(v)) == Ok::<SpecCPublishedFile_SetSubscriptionListFromCollection_Request, WireError>(v)) by {
            reveal(CPublishedFile_SetSubscriptionListFromCollection_Request::spec_decode);
        }
    }
}

/// `CPublishedFile_SetSubscriptionListFromCollection_Response`, as Valve's schema declares it.
#[derive(Debug, Clone, PartialEq)]
pub struct CPublishedFile_SetSubscriptionListFromCollection_Response {}

/// What a `CPublishedFile_SetSubscriptionListFromCollection_Response` holds, as mathematical values.
#[verifier::ext_equal]
pub struct SpecCPublishedFile_SetSubscriptionListFromCollection_Response {}

impl View for CPublishedFile_SetSubscriptionListFromCollection_Response {
    type V = SpecCPublishedFile_SetSubscriptionListFromCollection_Response;

    open spec fn view(&self) -> SpecCPublishedFile_SetSubscriptionListFromCollection_Response {
        SpecCPublishedFile_SetSubscriptionListFromCollection_Response {}
    }
}

impl Default for CPublishedFile_SetSubscriptionListFromCollection_Response {
    fn default() -> (r: Self)
        ensures
            r@ == CPublishedFile_SetSubscriptionListFromCollection_Response::spec_default(),
    {
        CPublishedFile_SetSubscriptionListFromCollection_Response {}
    }
}

impl CPublishedFile_SetSubscriptionListFromCollection_Response {
    pub open spec fn spec_default() -> SpecCPublishedFile_SetSubscriptionListFromCollection_Response {
        SpecCPublishedFile_SetSubscriptionListFromCollection_Response {}
    }

    /// The records a `CPublishedFile_SetSubscriptionListFromCollection_Response` is written as, in field order.
    pub open spec fn spec_fields(v: SpecCPublishedFile_SetSubscriptionListFromCollection_Response) -> Seq<SpecField> {
        Seq::<SpecField>::empty()
    }

    #[verifier::opaque]
    pub open spec fn spec_encode(v: SpecCPublishedFile_SetSubscriptionListFromCollection_Response) -> Seq<u8> {
        fields_bytes(Self::spec_fields(v))
    }

    /// What one record does to the message: a declared number sets or extends its
    /// field, any other number is left alone.
    pub open spec fn spec_apply(v: SpecCPublishedFile_SetSubscriptionListFromCollection_Response, f: SpecField) -> Result<SpecCPublishedFile_SetSubscriptionListFromCollection_Response, WireError> {
        match f.number {
            _ => Ok(v),
        }
    }

    pub open spec fn apply_fn() -> spec_fn(SpecCPublishedFile_SetSubscriptionListFromCollection_Response, SpecField) -> Result<SpecCPublishedFile_SetSubscriptionListFromCollection_Response, WireError> {
        |v: SpecCPublishedFile_SetSubscriptionListFromCollection_Response, f: SpecField| Self::spec_apply(v, f)
    }

    /// The message `bytes` makes of `v`: its records applied in order, or the error
    /// that stops the reading.
    pub open spec fn spec_merge(v: SpecCPublishedFile_SetSubscriptionListFromCollection_Response, bytes: Seq<u8>) -> Result<SpecCPublishedFile_SetSubscriptionListFromCollection_Response, WireError> {
        let (w, stop) = merge_run(v, bytes, Self::apply_fn());
        match stop {
            None => Ok(w),
            Some(e) => Err(e),
        }
    }

    #[verifier::opaque]
    pub open spec fn spec_decode(bytes: Seq<u8>) -> Result<SpecCPublishedFile_SetSubscriptionListFromCollection_Response, WireError> {
        Self::spec_merge(Self::spec_default(), bytes)
    }

    /// This message with one record applied to it, or, when the record is refused,
    /// the message unchanged and the reason.
    fn applied(self, f: &Field) -> (r: Result<Self, (Self, WireError)>)
        ensures
            match Self::spec_apply(self@, f@) {
                Ok(v) => r matches Ok(m) && m@ == v,
                Err(e) => r matches Err((m, x)) && x == e && m@ == self@,
            },
    {
        match f.number {
            _ => Ok(self),
        }
    }

    /// Reads the records `bytes` holds into this message, in order. When a record does
    /// not parse or is refused, the reading stops there: the message keeps what the
    /// records before it gave, and the error is returned.
    pub fn merge(&mut self, bytes: &[u8]) -> (r: Result<(), WireError>)
        ensures
            final(self)@ == merge_run(old(self)@, bytes@, Self::apply_fn()).0,
            r == match merge_run(old(self)@, bytes@, Self::apply_fn()).1 {
                None => Ok::<(), WireError>(()),
                Some(e) => Err::<(), WireError>(e),
            },
    {
        let ghost total = merge_run(self@, bytes@, Self::apply_fn());
        let mut cur = Self::default();
        std::mem::swap(&mut cur, self);
        let mut pos: usize = 0;
        assert(bytes@.skip(0) =~= bytes@);
        while pos < bytes.len()
            invariant
                pos <= bytes@.len(),
                total == merge_run(old(self)@, bytes@, Self::apply_fn()),
                merge_run(cur@, bytes@.skip(pos as int), Self::apply_fn()) == total,
            decreases bytes@.len() - pos,
        {
            let ghost s = bytes@.skip(pos as int);
            proof {
                lemma_merge_run_step(cur@, s, Self::apply_fn());
                lemma_parse_field_len(s);
            }
            match read_field(bytes, pos) {
                Ok((f, end)) => {
                    assert(bytes@.skip(end as int) =~= s.skip((end - pos) as int));
                    match cur.applied(&f) {
                        Ok(m) => {
                            cur = m;
                        },
                        Err((m, e)) => {
                            *self = m;
                            return Err(e);
                        },
                    }
                    pos = end;
                },
                Err(e) => {
                    *self = cur;
                    return Err(e);
                },
            }
        }
        assert(bytes@.skip(pos as int) =~= Seq::<u8>::empty());
        proof {
            lemma_merge_run_empty(cur@, Self::apply_fn());
        }
        *self = cur;
        Ok(())
    }

    /// Decodes a message from its encoding.
    pub fn decode(bytes: &[u8]) -> (r: Result<Self, WireError>)
        ensures
            match Self::spec_decode(bytes@) {
                Ok(v) => r matches Ok(m) && m@ == v,
                Err(e) => r matches Err(x) && x == e,
            },
    {
        proof {
            reveal(CPublishedFile_SetSubscriptionListFromCollection_Response::spec_decode);
        }
        let mut m = Self::default();
        match m.merge(bytes) {
            Ok(()) => Ok(m),
            Err(e) => Err(e),
        }
    }

    /// The encoding of this message.
    pub fn encode_to_vec(&self) -> (r: Vec<u8>)
        ensures
            r@ == Self::spec_encode(self@),
    {
        let ghost v = self@;
        let mut out: Vec<u8> = Vec::new();
        let ghost p0 = Seq::<SpecField>::empty();
        proof {
            reveal(CPublishedFile_SetSubscriptionListFromCollection_Response::spec_encode);
        }
        assert(p0 == Self::spec_fields(v));
        assert(out@ =~= fields_bytes(p0));
        out
    }

    /// Appends the encoding of this message to `out`.
    pub fn encode_raw(&self, out: &mut Vec<u8>)
        ensures
            final(out)@ == old(out)@ + Self::spec_encode(self@),
    {
        let mut b = self.encode_to_vec();
        out.append(&mut b);
    }

    /// The first `k` fields of `v`, the others as a fresh message has them.
    #[verifier::opaque]
    pub open spec fn spec_prefix(v: SpecCPublishedFile_SetSubscriptionListFromCollection_Response, k: int) -> SpecCPublishedFile_SetSubscriptionListFromCollection_Response {
        SpecCPublishedFile_SetSubscriptionListFromCollection_Response {}
    }

    /// Whether this message declares field number `n`.
    pub open spec fn declares(n: u32) -> bool {
        false
    }

    /// A record with a number this message does not declare is passed over: well-formed
    /// bytes decode to the same message with such a record after them as without it.
    pub proof fn lemma_unknown_field(bytes: Seq<u8>, f: SpecField)
        requires
            parse_fields(bytes) is Ok,
            field_wf(f),
            !Self::declares(f.number),
        ensures
            Self::spec_decode(bytes + field_bytes(f)) == Self::spec_decode(bytes),
    {
        reveal(CPublishedFile_SetSubscriptionListFromCollection_Response::spec_decode);
        lemma_parse_fields_append(bytes, f);
        let fs = parse_fields(bytes).unwrap();
        let apply = Self::apply_fn();
        lemma_fold_concat(Self::spec_default(), fs, seq![f], apply);
        assert(fs.push(f) =~= fs + seq![f]);
        if let Ok(w) = fold_fields(Self::spec_default(), fs, apply) {
            lemma_fold_single(w, f, apply);
        }
        lemma_merge_run_fold(Self::spec_default(), bytes, apply);
        lemma_merge_run_fold(Self::spec_default(), bytes + field_bytes(f), apply);
    }

    /// Decoding the encoding of a message gives the message back.
    pub proof fn lemma_decode_encode(v: SpecCPublishedFile_SetSubscriptionListFromCollection_Response)
        requires
            Self::spec_encode(v).len() <= u64::MAX,
        ensures
            Self::spec_decode(Self::spec_encode(v)) == Ok::<SpecCPublishedFile_SetSubscriptionListFromCollection_Response, WireError>(v),
    {
        let apply = Self::apply_fn();
        let d = Self::spec_default();
        let p0 = Seq::<SpecField>::empty();
        assert(parse_fields(Self::spec_encode(v)) == Ok::<Seq<SpecField>, WireError>(p0)) by {
            reveal(CPublishedFile_SetSubscriptionListFromCollection_Response::spec_encode);
            assert(numbers_ok(p0) && fields_wf(p0)) by {
                reveal(numbers_ok);
                reveal(fields_wf);
            }
            assert(p0 == Self::spec_fields(v));
            lemma_fields_wf_from_len(p0);
            lemma_fields_roundtrip(p0);
        }
        assert(Self::spec_prefix(v, 0) == d) by {
            reveal(CPublishedFile_SetSubscriptionListFromCollection_Response::spec_prefix);
        }
        lemma_fold_empty(d, apply);
        assert(Self::spec_prefix(v, 0) == v) by {
            reveal(CPublishedFile_SetSubscriptionListFromCollection_Response::spec_prefix);
        }
        lemma_merge_run_fold(d, Self::spec_encode(v), apply);
        assert(Self::spec_decode(Self::spec_encode(v)) == Ok::<SpecCPublishedFile_SetSubscriptionListFromCollection_Response, WireError>(v)) by {
            reveal(CPublishedFile_SetSubscriptionListFromCollection_Response::spec_decode);
        }
    }
}

/// `CPublishedFile_GetUserVoteSummary_Request`, as Valve's schema declares it.
#[derive(Debug, Clone, PartialEq)]
pub struct CPublishedFile_GetUserVoteSummary_Request {
    /// Field 1.
    pub publishedfileids: Vec<u64>,
}

/// What a `CPublishedFile_GetUserVoteSummary_Request` holds, as mathematical values.
#[verifier::ext_equal]
pub struct SpecCPublishedFile_GetUserVoteSummary_Request {
    pub publishedfileids: Seq<u64>,
}

impl View for CPublishedFile_GetUserVoteSummary_Request {
    type V = SpecCPublishedFile_GetUserVoteSummary_Request;

    open spec fn view(&self) -> SpecCPublishedFile_GetUserVoteSummary_Request {
        SpecCPublishedFile_GetUserVoteSummary_Request {
            publishedfileids: self.publishedfileids@,
        }
    }
}

impl Default for CPublishedFile_GetUserVoteSummary_Request {
    fn default() -> (r: Self)
        ensures
            r@ == CPublishedFile_GetUserVoteSummary_Request::spec_default(),
    {
        CPublishedFile_GetUserVoteSummary_Request {
            publishedfileids: Vec::new(),
        }
    }
}

impl CPublishedFile_GetUserVoteSummary_Request {
    pub open spec fn spec_default() -> SpecCPublishedFile_GetUserVoteSummary_Request {
        SpecCPublishedFile_GetUserVoteSummary_Request {
            publishedfileids: Seq::empty(),
        }
    }

    /// The records a `CPublishedFile_GetUserVoteSummary_Request` is written as, in field order.
    pub open spec fn spec_fields(v: SpecCPublishedFile_GetUserVoteSummary_Request) -> Seq<SpecField> {
        Seq::<SpecField>::empty()
            + rep_fixed64(1, v.publishedfileids)
    }

    #[verifier::opaque]
    pub open spec fn spec_encode(v: SpecCPublishedFile_GetUserVoteSummary_Request) -> Seq<u8> {
        fields_bytes(Self::spec_fields(v))
    }

    /// What one record does to the message: a declared number sets or extends its
    /// field, any other number is left alone.
    pub open spec fn spec_apply(v: SpecCPublishedFile_GetUserVoteSummary_Request, f: SpecField) -> Result<SpecCPublishedFile_GetUserVoteSummary_Request, WireError> {
        match f.number {
            1 => match dec_packed_fixed64(f.value) {
                Ok(xs) => Ok(SpecCPublishedFile_GetUserVoteSummary_Request { publishedfileids: v.publishedfileids + xs, ..v }),
                Err(e) => Err(e),
            },
            _ => Ok(v),
        }
    }

    pub open spec fn apply_fn() -> spec_fn(SpecCPublishedFile_GetUserVoteSummary_Request, SpecField) -> Result<SpecCPublishedFile_GetUserVoteSummary_Request, WireError> {
        |v: SpecCPublishedFile_GetUserVoteSummary_Request, f: SpecField| Self::spec_apply(v, f)
    }

    /// The message `bytes` makes of `v`: its records applied in order, or the error
    /// that stops the reading.
    pub open spec fn spec_merge(v: SpecCPublishedFile_GetUserVoteSummary_Request, bytes: Seq<u8>) -> Result<SpecCPublishedFile_GetUserVoteSummary_Request, WireError> {
        let (w, stop) = merge_run(v, bytes, Self::apply_fn());
        match stop {
            None => Ok(w),
            Some(e) => Err(e),
        }
    }

    #[verifier::opaque]
    pub open spec fn spec_decode(bytes: Seq<u8>) -> Result<SpecCPublishedFile_GetUserVoteSummary_Request, WireError> {
        Self::spec_merge(Self::spec_default(), bytes)
    }

    /// This message with one record applied to it, or, when the record is refused,
    /// the message unchanged and the reason.
    fn applied(self, f: &Field) -> (r: Result<Self, (Self, WireError)>)
        ensures
            match Self::spec_apply(self@, f@) {
                Ok(v) => r matches Ok(m) && m@ == v,
                Err(e) => r matches Err((m, x)) && x == e && m@ == self@,
            },
    {
        match f.number {
            1 => match read_packed_fixed64(&f.value) {
                Ok(xs) => {
                    let mut m = self;
                    let mut xs = xs;
                    m.publishedfileids.append(&mut xs);
                    Ok(m)
                },
                Err(e) => Err((self, e)),
            },
            _ => Ok(self),
        }
    }

    /// Reads the records `bytes` holds into this message, in order. When a record does
    /// not parse or is refused, the reading stops there: the message keeps what the
    /// records before it gave, and the error is returned.
    pub fn merge(&mut self, bytes: &[u8]) -> (r: Result<(), WireError>)
        ensures
            final(self)@ == merge_run(old(self)@, bytes@, Self::apply_fn()).0,
            r == match merge_run(old(self)@, bytes@, Self::apply_fn()).1 {
                None => Ok::<(), WireError>(()),
                Some(e) => Err::<(), WireError>(e),
            },
    {
        let ghost total = merge_run(self@, bytes@, Self::apply_fn());
        let mut cur = Self::default();
        std::mem::swap(&mut cur, self);
        let mut pos: usize = 0;
        assert(bytes@.skip(0) =~= bytes@);
        while pos < bytes.len()
            invariant
                pos <= bytes@.len(),
                total == merge_run(old(self)@, bytes@, Self::apply_fn()),
                merge_run(cur@, bytes@.skip(pos as int), Self::apply_fn()) == total,
            decreases bytes@.len() - pos,
        {
            let ghost s = bytes@.skip(pos as int);
            proof {
                lemma_merge_run_step(cur@, s, Self::apply_fn());
                lemma_parse_field_len(s);
            }
            match read_field(bytes, pos) {
                Ok((f, end)) => {
                    assert(bytes@.skip(end as int) =~= s.skip((end - pos) as int));
                    match cur.applied(&f) {
                        Ok(m) => {
                            cur = m;
                        },
                        Err((m, e)) => {
                            *self = m;
                            return Err(e);
                        },
                    }
                    pos = end;
                },
                Err(e) => {
                    *self = cur;
                    return Err(e);
                },
            }
        }
        assert(bytes@.skip(pos as int) =~= Seq::<u8>::empty());
        proof {
            lemma_merge_run_empty(cur@, Self::apply_fn());
        }
        *self = cur;
        Ok(())
    }

    /// Decodes a message from its encoding.
    pub fn decode(bytes: &[u8]) -> (r: Result<Self, WireError>)
        ensures
            match Self::spec_decode(bytes@) {
                Ok(v) => r matches Ok(m) && m@ == v,
                Err(e) => r matches Err(x) && x == e,
            },
    {
        proof {
            reveal(CPublishedFile_GetUserVoteSummary_Request::spec_decode);
        }
        let mut m = Self::default();
        match m.merge(bytes) {
            Ok(()) => Ok(m),
            Err(e) => Err(e),
        }
    }

    /// The encoding of this message.
    pub fn encode_to_vec(&self) -> (r: Vec<u8>)
        ensures
            r@ == Self::spec_encode(self@),
    {
        let ghost v = self@;
        let mut out: Vec<u8> = Vec::new();
        let ghost p0 = Seq::<SpecField>::empty();
        put_rep_fixed64(&mut out, 1, &self.publishedfileids);
        let ghost p1 = p0 + rep_fixed64(1, v.publishedfileids);
        proof {
            lemma_fields_bytes_concat(p0, rep_fixed64(1, v.publishedfileids));
        }
        proof {
            reveal(CPublishedFile_GetUserVoteSummary_Request::spec_encode);
        }
        assert(p1 == Self::spec_fields(v));
        out
    }

    /// Appends the encoding of this message to `out`.
    pub fn encode_raw(&self, out: &mut Vec<u8>)
        ensures
            final(out)@ == old(out)@ + Self::spec_encode(self@),
    {
        let mut b = self.encode_to_vec();
        out.append(&mut b);
    }

    /// The first `k` fields of `v`, the others as a fresh message has them.
    #[verifier::opaque]
    pub open spec fn spec_prefix(v: SpecCPublishedFile_GetUserVoteSummary_Request, k: int) -> SpecCPublishedFile_GetUserVoteSummary_Request {
        SpecCPublishedFile_GetUserVoteSummary_Request {
            publishedfileids: if 1 <= k { v.publishedfileids } else { Seq::empty() },
        }
    }

    /// Reading field 1 back, after the fields before it.
    proof fn lemma_field_publishedfileids(v: SpecCPublishedFile_GetUserVoteSummary_Request)
        ensures
            fold_fields(Self::spec_prefix(v, 0), rep_fixed64(1, v.publishedfileids), Self::apply_fn())
                == Ok::<SpecCPublishedFile_GetUserVoteSummary_Request, WireError>(Self::spec_prefix(v, 1)),
    {
        reveal(CPublishedFile_GetUserVoteSummary_Request::spec_prefix);
        reveal(rep_fixed64);
        let apply = Self::apply_fn();
        let s = Self::spec_prefix(v, 0);
        let l = rep_fixed64(1, v.publishedfileids);
        let xs = v.publishedfileids;
        let st = Seq::new((xs.len() + 1) as nat, |j: int| SpecCPublishedFile_GetUserVoteSummary_Request { publishedfileids: xs.take(j), ..s });
        assert forall|j: int| 0 <= j < l.len() implies #[trigger] apply(st[j], l[j]) == Ok::<SpecCPublishedFile_GetUserVoteSummary_Request, WireError>(st[j + 1]) by {
            lemma_u64_roundtrip(xs[j]);
            assert(xs.take(j) + seq![xs[j]] =~= xs.take(j + 1));
        }
        lemma_fold_chain(l, st, apply);
        assert(xs.take(0) =~= Seq::<u64>::empty());
        assert(xs.take(xs.len() as int) =~= xs);
        assert(st[0] == s);
        assert(st[xs.len() as int] == Self::spec_prefix(v, 1));
    }

    /// Whether this message declares field number `n`.
    pub open spec fn declares(n: u32) -> bool {
        n == 1
    }

    /// A record with a number this message does not declare is passed over: well-formed
    /// bytes decode to the same message with such a record after them as without it.
    pub proof fn lemma_unknown_field(bytes: Seq<u8>, f: SpecField)
        requires
            parse_fields(bytes) is Ok,
            field_wf(f),
            !Self::declares(f.number),
        ensures
            Self::spec_decode(bytes + field_bytes(f)) == Self::spec_decode(bytes),
    {
        reveal(CPublishedFile_GetUserVoteSummary_Request::spec_decode);
        lemma_parse_fields_append(bytes, f);
        let fs = parse_fields(bytes).unwrap();
        let apply = Self::apply_fn();
        lemma_fold_concat(Self::spec_default(), fs, seq![f], apply);
        assert(fs.push(f) =~= fs + seq![f]);
        if let Ok(w) = fold_fields(Self::spec_default(), fs, apply) {
            lemma_fold_single(w, f, apply);
        }
        lemma_merge_run_fold(Self::spec_default(), bytes, apply);
        lemma_merge_run_fold(Self::spec_default(), bytes + field_bytes(f), apply);
    }

    /// Decoding the encoding of a message gives the message back.
    pub proof fn lemma_decode_encode(v: SpecCPublishedFile_GetUserVoteSummary_Request)
        requires
            Self::spec_encode(v).len() <= u64::MAX,
        ensures
            Self::spec_decode(Self::spec_encode(v)) == Ok::<SpecCPublishedFile_GetUserVoteSummary_Request, WireError>(v),
    {
        let apply = Self::apply_fn();
        let d = Self::spec_default();
        let p0 = Seq::<SpecField>::empty();
        let l1 = rep_fixed64(1, v.publishedfileids);
        let p1 = p0 + l1;
        assert(parse_fields(Self::spec_encode(v)) == Ok::<Seq<SpecField>, WireError>(p1)) by {
            reveal(CPublishedFile_GetUserVoteSummary_Request::spec_encode);
            assert(numbers_ok(p0) && fields_wf(p0)) by {
                reveal(numbers_ok);
                reveal(fields_wf);
            }
            lemma_rep_fixed64_numbered(1, v.publishedfileids);
            lemma_fields_wf_concat(p0, l1);
            assert(p1 == Self::spec_fields(v));
            lemma_fields_wf_from_len(p1);
            lemma_fields_roundtrip(p1);
        }
        assert(Self::spec_prefix(v, 0) == d) by {
            reveal(CPublishedFile_GetUserVoteSummary_Request::spec_prefix);
        }
        lemma_fold_empty(d, apply);
        lemma_fold_concat(d, p0, l1, apply);
        Self::lemma_field_publishedfileids(v);
        assert(Self::spec_prefix(v, 1) == v) by {
            reveal(CPublishedFile_GetUserVoteSummary_Request::spec_prefix);
        }
        lemma_merge_run_fold(d, Self::spec_encode(v), apply);
        assert(Self::spec_decode(Self::spec_encode(v)) == Ok::<SpecCPublishedFile_GetUserVoteSummary_Request, WireError>(v)) by {
            reveal(CPublishedFile_GetUserVoteSummary_Request::spec_decode);
        }
    }
}

/// `CPublishedFile_GetUserVoteSummary_Response`, as Valve's schema declares it.
#[derive(Debug, Clone, PartialEq)]
pub struct CPublishedFile_GetUserVoteSummary_Response {
    /// Field 1.
    pub summaries: Vec<crate::steammessages_publishedfile_steamclient::c_published_file_get_user_vote_summary_response::VoteSummary>,
}

/// What a `CPublishedFile_GetUserVoteSummary_Response` holds, as mathematical values.
#[verifier::ext_equal]
pub struct SpecCPublishedFile_GetUserVoteSummary_Response {
    pub summaries: Seq<crate::steammessages_publishedfile_steamclient::c_published_file_get_user_vote_summary_response::SpecVoteSummary>,
}

impl View for CPublishedFile_GetUserVoteSummary_Response {
    type V = SpecCPublishedFile_GetUserVoteSummary_Response;

    open spec fn view(&self) -> SpecCPublishedFile_GetUserVoteSummary_Response {
        SpecCPublishedFile_GetUserVoteSummary_Response {
            summaries: crate::steammessages_publishedfile_steamclient::c_published_file_get_user_vote_summary_response::VoteSummary::view_all(self.summaries@),
        }
    }
}

impl Default for CPublishedFile_GetUserVoteSummary_Response {
    fn default() -> (r: Self)
        ensures
            r@ == CPublishedFile_GetUserVoteSummary_Response::spec_default(),
    {
        CPublishedFile_GetUserVoteSummary_Response {
            summaries: Vec::new(),
        }
    }
}

impl CPublishedFile_GetUserVoteSummary_Response {
    pub open spec fn spec_default() -> SpecCPublishedFile_GetUserVoteSummary_Response {
        SpecCPublishedFile_GetUserVoteSummary_Response {
            summaries: Seq::empty(),
        }
    }

    /// The records a `CPublishedFile_GetUserVoteSummary_Response` is written as, in field order.
    pub open spec fn spec_fields(v: SpecCPublishedFile_GetUserVoteSummary_Response) -> Seq<SpecField> {
        Seq::<SpecField>::empty()
            + rep_bytes(1, crate::steammessages_publishedfile_steamclient::c_published_file_get_user_vote_summary_response::VoteSummary::spec_encode_all(v.summaries))
    }

    #[verifier::opaque]
    pub open spec fn spec_encode(v: SpecCPublishedFile_GetUserVoteSummary_Response) -> Seq<u8> {
        fields_bytes(Self::spec_fields(v))
    }

    /// What one record does to the message: a declared number sets or extends its
    /// field, any other number is left alone.
    pub open spec fn spec_apply(v: SpecCPublishedFile_GetUserVoteSummary_Response, f: SpecField) -> Result<SpecCPublishedFile_GetUserVoteSummary_Response, WireError> {
        match f.number {
            1 => match dec_bytes(f.value) {
                Ok(b) => match crate::steammessages_publishedfile_steamclient::c_published_file_get_user_vote_summary_response::VoteSummary::spec_decode(b) {
                    Ok(m) => Ok(SpecCPublishedFile_GetUserVoteSummary_Response { summaries: v.summaries.push(m), ..v }),
                    Err(e) => Err(e),
                },
                Err(e) => Err(e),
            },
            _ => Ok(v),
        }
    }

    pub open spec fn apply_fn() -> spec_fn(SpecCPublishedFile_GetUserVoteSummary_Response, SpecField) -> Result<SpecCPublishedFile_GetUserVoteSummary_Response, WireError> {
        |v: SpecCPublishedFile_GetUserVoteSummary_Response, f: SpecField| Self::spec_apply(v, f)
    }

    /// The message `bytes` makes of `v`: its records applied in order, or the error
    /// that stops the reading.
    pub open spec fn spec_merge(v: SpecCPublishedFile_GetUserVoteSummary_Response, bytes: Seq<u8>) -> Result<SpecCPublishedFile_GetUserVoteSummary_Response, WireError> {
        let (w, stop) = merge_run(v, bytes, Self::apply_fn());
        match stop {
            None => Ok(w),
            Some(e) => Err(e),
        }
    }

    #[verifier::opaque]
    pub open spec fn spec_decode(bytes: Seq<u8>) -> Result<SpecCPublishedFile_GetUserVoteSummary_Response, WireError> {
        Self::spec_merge(Self::spec_default(), bytes)
    }

    /// This message with one record applied to it, or, when the record is refused,
    /// the message unchanged and the reason.
    fn applied(self, f: &Field) -> (r: Result<Self, (Self, WireError)>)
        ensures
            match Self::spec_apply(self@, f@) {
                Ok(v) => r matches Ok(m) && m@ == v,
                Err(e) => r matches Err((m, x)) && x == e && m@ == self@,
            },
    {
        match f.number {
            1 => match read_payload(&f.value) {
                Ok(b) => match crate::steammessages_publishedfile_steamclient::c_published_file_get_user_vote_summary_response::VoteSummary::decode(b) {
                    Ok(x) => {
                        let mut m = self;
                        let ghost before = m.summaries@;
                        m.summaries.push(x);
                        assert(crate::steammessages_publishedfile_steamclient::c_published_file_get_user_vote_summary_response::VoteSummary::view_all(m.summaries@) =~= crate::steammessages_publishedfile_steamclient::c_published_file_get_user_vote_summary_response::VoteSummary::view_all(before).push(x@));
                        Ok(m)
                    },
                    Err(e) => Err((self, e)),
                },
                Err(e) => Err((self, e)),
            },
            _ => Ok(self),
        }
    }

    /// Reads the records `bytes` holds into this message, in order. When a record does
    /// not parse or is refused, the reading stops there: the message keeps what the
    /// records before it gave, and the error is returned.
    pub fn merge(&mut self, bytes: &[u8]) -> (r: Result<(), WireError>)
        ensures
            final(self)@ == merge_run(old(self)@, bytes@, Self::apply_fn()).0,
            r == match merge_run(old(self)@, bytes@, Self::apply_fn()).1 {
                None => Ok::<(), WireError>(()),
                Some(e) => Err::<(), WireError>(e),
            },
    {
        let ghost total = merge_run(self@, bytes@, Self::apply_fn());
        let mut cur = Self::default();
        std::mem::swap(&mut cur, self);
        let mut pos: usize = 0;
        assert(bytes@.skip(0) =~= bytes@);
        while pos < bytes.len()
            invariant
                pos <= bytes@.len(),
                total == merge_run(old(self)@, bytes@, Self::apply_fn()),
                merge_run(cur@, bytes@.skip(pos as int), Self::apply_fn()) == total,
            decreases bytes@.len() - pos,
        {
            let ghost s = bytes@.skip(pos as int);
            proof {
                lemma_merge_run_step(cur@, s, Self::apply_fn());
                lemma_parse_field_len(s);
            }
            match read_field(bytes, pos) {
                Ok((f, end)) => {
                    assert(bytes@.skip(end as int) =~= s.skip((end - pos) as int));
                    match cur.applied(&f) {
                        Ok(m) => {
                            cur = m;
                        },
                        Err((m, e)) => {
                            *self = m;
                            return Err(e);
                        },
                    }
                    pos = end;
                },
                Err(e) => {
                    *self = cur;
                    return Err(e);
                },
            }
        }
        assert(bytes@.skip(pos as int) =~= Seq::<u8>::empty());
        proof {
            lemma_merge_run_empty(cur@, Self::apply_fn());
        }
        *self = cur;
        Ok(())
    }

    /// Decodes a message from its encoding.
    pub fn decode(bytes: &[u8]) -> (r: Result<Self, WireError>)
        ensures
            match Self::spec_decode(bytes@) {
                Ok(v) => r matches Ok(m) && m@ == v,
                Err(e) => r matches Err(x) && x == e,
            },
    {
        proof {
            reveal(CPublishedFile_GetUserVoteSummary_Response::spec_decode);
        }
        let mut m = Self::default();
        match m.merge(bytes) {
            Ok(()) => Ok(m),
            Err(e) => Err(e),
        }
    }

    /// The encoding of this message.
    pub fn encode_to_vec(&self) -> (r: Vec<u8>)
        ensures
            r@ == Self::spec_encode(self@),
    {
        let enc_summaries = crate::steammessages_publishedfile_steamclient::c_published_file_get_user_vote_summary_response::VoteSummary::encode_all(&self.summaries);
        let ghost v = self@;
        let mut out: Vec<u8> = Vec::new();
        let ghost p0 = Seq::<SpecField>::empty();
        put_rep_bytes(&mut out, 1, &enc_summaries);
        let ghost p1 = p0 + rep_bytes(1, crate::steammessages_publishedfile_steamclient::c_published_file_get_user_vote_summary_response::VoteSummary::spec_encode_all(v.summaries));
        proof {
            lemma_fields_bytes_concat(p0, rep_bytes(1, crate::steammessages_publishedfile_steamclient::c_published_file_get_user_vote_summary_response::VoteSummary::spec_encode_all(v.summaries)));
        }
        proof {
            reveal(CPublishedFile_GetUserVoteSummary_Response::spec_encode);
        }
        assert(p1 == Self::spec_fields(v));
        out
    }

    /// Appends the encoding of this message to `out`.
    pub fn encode_raw(&self, out: &mut Vec<u8>)
        ensures
            final(out)@ == old(out)@ + Self::spec_encode(self@),
    {
        let mut b = self.encode_to_vec();
        out.append(&mut b);
    }

    /// The first `k` fields of `v`, the others as a fresh message has them.
    #[verifier::opaque]
    pub open spec fn spec_prefix(v: SpecCPublishedFile_GetUserVoteSummary_Response, k: int) -> SpecCPublishedFile_GetUserVoteSummary_Response {
        SpecCPublishedFile_GetUserVoteSummary_Response {
            summaries: if 1 <= k { v.summaries } else { Seq::empty() },
        }
    }

    /// Reading field 1 back, after the fields before it.
    proof fn lemma_field_summaries(v: SpecCPublishedFile_GetUserVoteSummary_Response)
        requires
            fields_wf(rep_bytes(1, crate::steammessages_publishedfile_steamclient::c_published_file_get_user_vote_summary_response::VoteSummary::spec_encode_all(v.summaries))),
        ensures
            fold_fields(Self::spec_prefix(v, 0), rep_bytes(1, crate::steammessages_publishedfile_steamclient::c_published_file_get_user_vote_summary_response::VoteSummary::spec_encode_all(v.summaries)), Self::apply_fn())
                == Ok::<SpecCPublishedFile_GetUserVoteSummary_Response, WireError>(Self::spec_prefix(v, 1)),
    {
        reveal(CPublishedFile_GetUserVoteSummary_Response::spec_prefix);
        reveal(rep_bytes);
        reveal(fields_wf);
        let apply = Self::apply_fn();
        let s = Self::spec_prefix(v, 0);
        let l = rep_bytes(1, crate::steammessages_publishedfile_steamclient::c_published_file_get_user_vote_summary_response::VoteSummary::spec_encode_all(v.summaries));
        let xs = v.summaries;
        let st = Seq::new((xs.len() + 1) as nat, |j: int| SpecCPublishedFile_GetUserVoteSummary_Response { summaries: xs.take(j), ..s });
        assert forall|j: int| 0 <= j < l.len() implies #[trigger] apply(st[j], l[j]) == Ok::<SpecCPublishedFile_GetUserVoteSummary_Response, WireError>(st[j + 1]) by {
            assert(field_wf(l[j]));
            crate::steammessages_publishedfile_steamclient::c_published_file_get_user_vote_summary_response::VoteSummary::lemma_decode_encode(xs[j]);
            assert(xs.take(j).push(xs[j]) =~= xs.take(j + 1));
        }
        lemma_fold_chain(l, st, apply);
        assert(xs.take(0) =~= Seq::<crate::steammessages_publishedfile_steamclient::c_published_file_get_user_vote_summary_response::SpecVoteSummary>::empty());
        assert(xs.take(xs.len() as int) =~= xs);
        assert(st[0] == s);
        assert(st[xs.len() as int] == Self::spec_prefix(v, 1));
    }

    /// Whether this message declares field number `n`.
    pub open spec fn declares(n: u32) -> bool {
        n == 1
    }

    /// A record with a number this message does not declare is passed over: well-formed
    /// bytes decode to the same message with such a record after them as without it.
    pub proof fn lemma_unknown_field(bytes: Seq<u8>, f: SpecField)
        requires
            parse_fields(bytes) is Ok,
            field_wf(f),
            !Self::declares(f.number),
        ensures
            Self::spec_decode(bytes + field_bytes(f)) == Self::spec_decode(bytes),
    {
        reveal(CPublishedFile_GetUserVoteSummary_Response::spec_decode);
        lemma_parse_fields_append(bytes, f);
        let fs = parse_fields(bytes).unwrap();
        let apply = Self::apply_fn();
        lemma_fold_concat(Self::spec_default(), fs, seq![f], apply);
        assert(fs.push(f) =~= fs + seq![f]);
        if let Ok(w) = fold_fields(Self::spec_default(), fs, apply) {
            lemma_fold_single(w, f, apply);
        }
        lemma_merge_run_fold(Self::spec_default(), bytes, apply);
        lemma_merge_run_fold(Self::spec_default(), bytes + field_bytes(f), apply);
    }

    /// Decoding the encoding of a message gives the message back.
    pub proof fn lemma_decode_encode(v: SpecCPublishedFile_GetUserVoteSummary_Response)
        requires
            Self::spec_encode(v).len() <= u64::MAX,
        ensures
            Self::spec_decode(Self::spec_encode(v)) == Ok::<SpecCPublishedFile_GetUserVoteSummary_Response, WireError>(v),
    {
        let apply = Self::apply_fn();
        let d = Self::spec_default();
        let p0 = Seq::<SpecField>::empty();
        let l1 = rep_bytes(1, crate::steammessages_publishedfile_steamclient::c_published_file_get_user_vote_summary_response::VoteSummary::spec_encode_all(v.summaries));
        let p1 = p0 + l1;
        assert(parse_fields(Self::spec_encode(v)) == Ok::<Seq<SpecField>, WireError>(p1) && fields_wf(l1)) by {
            reveal(CPublishedFile_GetUserVoteSummary_Response::spec_encode);
            assert(numbers_ok(p0) && fields_wf(p0)) by {
                reveal(numbers_ok);
                reveal(fields_wf);
            }
            lemma_rep_bytes_numbered(1, crate::steammessages_publishedfile_steamclient::c_published_file_get_user_vote_summary_response::VoteSummary::spec_encode_all(v.summaries));
            lemma_fields_wf_concat(p0, l1);
            assert(p1 == Self::spec_fields(v));
            lemma_fields_wf_from_len(p1);
            lemma_fields_roundtrip(p1);
        }
        assert(Self::spec_prefix(v, 0) == d) by {
            reveal(CPublishedFile_GetUserVoteSummary_Response::spec_prefix);
        }
        lemma_fold_empty(d, apply);
        lemma_fold_concat(d, p0, l1, apply);
        Self::lemma_field_summaries(v);
        assert(Self::spec_prefix(v, 1) == v) by {
            reveal(CPublishedFile_GetUserVoteSummary_Response::spec_prefix);
        }
        lemma_merge_run_fold(d, Self::spec_encode(v), apply);
        assert(Self::spec_decode(Self::spec_encode(v)) == Ok::<SpecCPublishedFile_GetUserVoteSummary_Response, WireError>(v)) by {
            reveal(CPublishedFile_GetUserVoteSummary_Response::spec_decode);
        }
    }
}

/// `CPublishedFile_GetItemChanges_Request`, as Valve's schema declares it.
#[derive(Debug, Clone, PartialEq)]
pub struct CPublishedFile_GetItemChanges_Request {
    /// Field 1.
    pub appid: Option<u32>,
    /// Field 2.
    pub last_time_updated: Option<u32>,
    /// Field 3.
    pub num_items_max: Option<u32>,
    /// Field 4.
    pub desired_revision: Option<crate::steammessages_publishedfile_steamclient::EPublishedFileRevision>,
    /// Field 5.
    pub include_legacy_items: Option<bool>,
}

/// What a `CPublishedFile_GetItemChanges_Request` holds, as mathematical values.
#[verifier::ext_equal]
pub struct SpecCPublishedFile_GetItemChanges_Request {
    pub appid: Option<u32>,
    pub last_time_updated: Option<u32>,
    pub num_items_max: Option<u32>,
    pub desired_revision: Option<i32>,
    pub include_legacy_items: Option<bool>,
}

impl View for CPublishedFile_GetItemChanges_Request {
    type V = SpecCPublishedFile_GetItemChanges_Request;

    open spec fn view(&self) -> SpecCPublishedFile_GetItemChanges_Request {
        SpecCPublishedFile_GetItemChanges_Request {
            appid: self.appid,
            last_time_updated: self.last_time_updated,
            num_items_max: self.num_items_max,
            desired_revision: match self.desired_revision { Some(e) => Some(e.0), None => None },
            include_legacy_items: self.include_legacy_items,
        }
    }
}

impl Default for CPublishedFile_GetItemChanges_Request {
    fn default() -> (r: Self)
        ensures
            r@ == CPublishedFile_GetItemChanges_Request::spec_default(),
    {
        CPublishedFile_GetItemChanges_Request {
            appid: None,
            last_time_updated: None,
            num_items_max: None,
            desired_revision: None,
            include_legacy_items: None,
        }
    }
}

impl CPublishedFile_GetItemChanges_Request {
    /// Field 4, or its schema default when absent.
    pub fn desired_revision_or_default(&self) -> (r: crate::steammessages_publishedfile_steamclient::EPublishedFileRevision)
        ensures
            r == match self.desired_revision {
                Some(e) => e,
                None => crate::steammessages_publishedfile_steamclient::EPublishedFileRevision(0),
            },
    {
        match self.desired_revision {
            Some(e) => e,
            None => crate::steammessages_publishedfile_steamclient::EPublishedFileRevision::k_EPublishedFileRevision_Default(),
        }
    }

    pub open spec fn spec_default() -> SpecCPublishedFile_GetItemChanges_Request {
        SpecCPublishedFile_GetItemChanges_Request {
            appid: None,
            last_time_updated: None,
            num_items_max: None,
            desired_revision: None,
            include_legacy_items: None,
        }
    }

    /// The records a `CPublishedFile_GetItemChanges_Request` is written as, in field order.
    pub open spec fn spec_fields(v: SpecCPublishedFile_GetItemChanges_Request) -> Seq<SpecField> {
        Seq::<SpecField>::empty()
            + opt_u32(1, v.appid)
            + opt_u32(2, v.last_time_updated)
            + opt_u32(3, v.num_items_max)
            + opt_i32(4, v.desired_revision)
            + opt_bool(5, v.include_legacy_items)
    }

    #[verifier::opaque]
    pub open spec fn spec_encode(v: SpecCPublishedFile_GetItemChanges_Request) -> Seq<u8> {
        fields_bytes(Self::spec_fields(v))
    }

    /// What one record does to the message: a declared number sets or extends its
    /// field, any other number is left alone.
    pub open spec fn spec_apply(v: SpecCPublishedFile_GetItemChanges_Request, f: SpecField) -> Result<SpecCPublishedFile_GetItemChanges_Request, WireError> {
        match f.number {
            1 => match dec_u32(f.value) {
                Ok(x) => Ok(SpecCPublishedFile_GetItemChanges_Request { appid: Some(x), ..v }),
                Err(e) => Err(e),
            },
            2 => match dec_u32(f.value) {
                Ok(x) => Ok(SpecCPublishedFile_GetItemChanges_Request { last_time_updated: Some(x), ..v }),
                Err(e) => Err(e),
            },
            3 => match dec_u32(f.value) {
                Ok(x) => Ok(SpecCPublishedFile_GetItemChanges_Request { num_items_max: Some(x), ..v }),
                Err(e) => Err(e),
            },
            4 => match dec_i32(f.value) {
                Ok(x) => Ok(SpecCPublishedFile_GetItemChanges_Request { desired_revision: Some(x), ..v }),
                Err(e) => Err(e),
            },
            5 => match dec_bool(f.value) {
                Ok(x) => Ok(SpecCPublishedFile_GetItemChanges_Request { include_legacy_items: Some(x), ..v }),
                Err(e) => Err(e),
            },
            _ => Ok(v),
        }
    }

    pub open spec fn apply_fn() -> spec_fn(SpecCPublishedFile_GetItemChanges_Request, SpecField) -> Result<SpecCPublishedFile_GetItemChanges_Request, WireError> {
        |v: SpecCPublishedFile_GetItemChanges_Request, f: SpecField| Self::spec_apply(v, f)
    }

    /// The message `bytes` makes of `v`: its records applied in order, or the error
    /// that stops the reading.
    pub open spec fn spec_merge(v: SpecCPublishedFile_GetItemChanges_Request, bytes: Seq<u8>) -> Result<SpecCPublishedFile_GetItemChanges_Request, WireError> {
        let (w, stop) = merge_run(v, bytes, Self::apply_fn());
        match stop {
            None => Ok(w),
            Some(e) => Err(e),
        }
    }

    #[verifier::opaque]
    pub open spec fn spec_decode(bytes: Seq<u8>) -> Result<SpecCPublishedFile_GetItemChanges_Request, WireError> {
        Self::spec_merge(Self::spec_default(), bytes)
    }

    /// This message with one record applied to it, or, when the record is refused,
    /// the message unchanged and the reason.
    fn applied(self, f: &Field) -> (r: Result<Self, (Self, WireError)>)
        ensures
            match Self::spec_apply(self@, f@) {
                Ok(v) => r matches Ok(m) && m@ == v,
                Err(e) => r matches Err((m, x)) && x == e && m@ == self@,
            },
    {
        match f.number {
            1 => match read_u32(&f.value) {
                Ok(x) => Ok(Self { appid: Some(x), ..self }),
                Err(e) => Err((self, e)),
            },
            2 => match read_u32(&f.value) {
                Ok(x) => Ok(Self { last_time_updated: Some(x), ..self }),
                Err(e) => Err((self, e)),
            },
            3 => match read_u32(&f.value) {
                Ok(x) => Ok(Self { num_items_max: Some(x), ..self }),
                Err(e) => Err((self, e)),
            },
            4 => match read_i32(&f.value) {
                Ok(x) => Ok(Self { desired_revision: Some(crate::steammessages_publishedfile_steamclient::EPublishedFileRevision(x)), ..self }),
                Err(e) => Err((self, e)),
            },
            5 => match read_bool(&f.value) {
                Ok(x) => Ok(Self { include_legacy_items: Some(x), ..self }),
                Err(e) => Err((self, e)),
            },
            _ => Ok(self),
        }
    }

    /// Reads the records `bytes` holds into this message, in order. When a record does
    /// not parse or is refused, the reading stops there: the message keeps what the
    /// records before it gave, and the error is returned.
    pub fn merge(&mut self, bytes: &[u8]) -> (r: Result<(), WireError>)
        ensures
            final(self)@ == merge_run(old(self)@, bytes@, Self::apply_fn()).0,
            r == match merge_run(old(self)@, bytes@, Self::apply_fn()).1 {
                None => Ok::<(), WireError>(()),
                Some(e) => Err::<(), WireError>(e),
            },
    {
        let ghost total = merge_run(self@, bytes@, Self::apply_fn());
        let mut cur = Self::default();
        std::mem::swap(&mut cur, self);
        let mut pos: usize = 0;
        assert(bytes@.skip(0) =~= bytes@);
        while pos < bytes.len()
            invariant
                pos <= bytes@.len(),
                total == merge_run(old(self)@, bytes@, Self::apply_fn()),
                merge_run(cur@, bytes@.skip(pos as int), Self::apply_fn()) == total,
            decreases bytes@.len() - pos,
        {
            let ghost s = bytes@.skip(pos as int);
            proof {
                lemma_merge_run_step(cur@, s, Self::apply_fn());
                lemma_parse_field_len(s);
            }
            match read_field(bytes, pos) {
                Ok((f, end)) => {
                    assert(bytes@.skip(end as int) =~= s.skip((end - pos) as int));
                    match cur.applied(&f) {
                        Ok(m) => {
                            cur = m;
                        },
                        Err((m, e)) => {
                            *self = m;
                            return Err(e);
                        },
                    }
                    pos = end;
                },
                Err(e) => {
                    *self = cur;
                    return Err(e);
                },
            }
        }
        assert(bytes@.skip(pos as int) =~= Seq::<u8>::empty());
        proof {
            lemma_merge_run_empty(cur@, Self::apply_fn());
        }
        *self = cur;
        Ok(())
    }

    /// Decodes a message from its encoding.
    pub fn decode(bytes: &[u8]) -> (r: Result<Self, WireError>)
        ensures
            match Self::spec_decode(bytes@) {
                Ok(v) => r matches Ok(m) && m@ == v,
                Err(e) => r matches Err(x) && x == e,
            },
    {
        proof {
            reveal(CPublishedFile_GetItemChanges_Request::spec_decode);
        }
        let mut m = Self::default();
        match m.merge(bytes) {
            Ok(()) => Ok(m),
            Err(e) => Err(e),
        }
    }

    /// The encoding of this message.
    pub fn encode_to_vec(&self) -> (r: Vec<u8>)
        ensures
            r@ == Self::spec_encode(self@),
    {
        let ghost v = self@;
        let mut out: Vec<u8> = Vec::new();
        let ghost p0 = Seq::<SpecField>::empty();
        put_opt_u32(&mut out, 1, self.appid);
        let ghost p1 = p0 + opt_u32(1, v.appid);
        proof {
            lemma_fields_bytes_concat(p0, opt_u32(1, v.appid));
        }
        put_opt_u32(&mut out, 2, self.last_time_updated);
        let ghost p2 = p1 + opt_u32(2, v.last_time_updated);
        proof {
            lemma_fields_bytes_concat(p1, opt_u32(2, v.last_time_updated));
        }
        put_opt_u32(&mut out, 3, self.num_items_max);
        let ghost p3 = p2 + opt_u32(3, v.num_items_max);
        proof {
            lemma_fields_bytes_concat(p2, opt_u32(3, v.num_items_max));
        }
        put_opt_i32(&mut out, 4, match self.desired_revision { Some(e) => Some(e.0), None => None });
        let ghost p4 = p3 + opt_i32(4, v.desired_revision);
        proof {
            lemma_fields_bytes_concat(p3, opt_i32(4, v.desired_revision));
        }
        put_opt_bool(&mut out, 5, self.include_legacy_items);
        let ghost p5 = p4 + opt_bool(5, v.include_legacy_items);
        proof {
            lemma_fields_bytes_concat(p4, opt_bool(5, v.include_legacy_items));
        }
        proof {
            reveal(CPublishedFile_GetItemChanges_Request::spec_encode);
        }
        assert(p5 == Self::spec_fields(v));
        out
    }

    /// Appends the encoding of this message to `out`.
    pub fn encode_raw(&self, out: &mut Vec<u8>)
        ensures
            final(out)@ == old(out)@ + Self::spec_encode(self@),
    {
        let mut b = self.encode_to_vec();
        out.append(&mut b);
    }

    /// The first `k` fields of `v`, the others as a fresh message has them.
    #[verifier::opaque]
    pub open spec fn spec_prefix(v: SpecCPublishedFile_GetItemChanges_Request, k: int) -> SpecCPublishedFile_GetItemChanges_Request {
        SpecCPublishedFile_GetItemChanges_Request {
            appid: if 1 <= k { v.appid } else { None },
            last_time_updated: if 2 <= k { v.last_time_updated } else { None },
            num_items_max: if 3 <= k { v.num_items_max } else { None },
            desired_revision: if 4 <= k { v.desired_revision } else { None },
            include_legacy_items: if 5 <= k { v.include_legacy_items } else { None },
        }
    }

    /// Reading field 1 back, after the fields before it.
    proof fn lemma_field_appid(v: SpecCPublishedFile_GetItemChanges_Request)
        ensures
            fold_fields(Self::spec_prefix(v, 0), opt_u32(1, v.appid), Self::apply_fn())
                == Ok::<SpecCPublishedFile_GetItemChanges_Request, WireError>(Self::spec_prefix(v, 1)),
    {
        reveal(CPublishedFile_GetItemChanges_Request::spec_prefix);
        reveal(opt_u32);
        let apply = Self::apply_fn();
        let s = Self::spec_prefix(v, 0);
        lemma_fold_opt(s, 1, match v.appid { Some(x) => Some(enc_u32(x)), None => None }, apply);
        if let Some(x) = v.appid {
            lemma_u32_roundtrip(x);
        }
        assert(SpecCPublishedFile_GetItemChanges_Request { appid: v.appid, ..s } == Self::spec_prefix(v, 1));
    }

    /// Reading field 2 back, after the fields before it.
    proof fn lemma_field_last_time_updated(v: SpecCPublishedFile_GetItemChanges_Request)
        ensures
            fold_fields(Self::spec_prefix(v, 1), opt_u32(2, v.last_time_updated), Self::apply_fn())
                == Ok::<SpecCPublishedFile_GetItemChanges_Request, WireError>(Self::spec_prefix(v, 2)),
    {
        reveal(CPublishedFile_GetItemChanges_Request::spec_prefix);
        reveal(opt_u32);
        let apply = Self::apply_fn();
        let s = Self::spec_prefix(v, 1);
        lemma_fold_opt(s, 2, match v.last_time_updated { Some(x) => Some(enc_u32(x)), None => None }, apply);
        if let Some(x) = v.last_time_updated {
            lemma_u32_roundtrip(x);
        }
        assert(SpecCPublishedFile_GetItemChanges_Request { last_time_updated: v.last_time_updated, ..s } == Self::spec_prefix(v, 2));
    }

    /// Reading field 3 back, after the fields before it.
    proof fn lemma_field_num_items_max(v: SpecCPublishedFile_GetItemChanges_Request)
        ensures
            fold_fields(Self::spec_prefix(v, 2), opt_u32(3, v.num_items_max), Self::apply_fn())
                == Ok::<SpecCPublishedFile_GetItemChanges_Request, WireError>(Self::spec_prefix(v, 3)),
    {
        reveal(CPublishedFile_GetItemChanges_Request::spec_prefix);
        reveal(opt_u32);
        let apply = Self::apply_fn();
        let s = Self::spec_prefix(v, 2);
        lemma_fold_opt(s, 3, match v.num_items_max { Some(x) => Some(enc_u32(x)), None => None }, apply);
        if let Some(x) = v.num_items_max {
            lemma_u32_roundtrip(x);
        }
        assert(SpecCPublishedFile_GetItemChanges_Request { num_items_max: v.num_items_max, ..s } == Self::spec_prefix(v, 3));
    }

    /// Reading field 4 back, after the fields before it.
    proof fn lemma_field_desired_revision(v: SpecCPublishedFile_GetItemChanges_Request)
        ensures
            fold_fields(Self::spec_prefix(v, 3), opt_i32(4, v.desired_revision), Self::apply_fn())
                == Ok::<SpecCPublishedFile_GetItemChanges_Request, WireError>(Self::spec_prefix(v, 4)),
    {
        reveal(CPublishedFile_GetItemChanges_Request::spec_prefix);
        reveal(opt_i32);
        let apply = Self::apply_fn();
        let s = Self::spec_prefix(v, 3);
        lemma_fold_opt(s, 4, match v.desired_revision { Some(x) => Some(enc_i32(x)), None => None }, apply);
        if let Some(x) = v.desired_revision {
            lemma_i32_roundtrip(x);
        }
        assert(SpecCPublishedFile_GetItemChanges_Request { desired_revision: v.desired_revision, ..s } == Self::spec_prefix(v, 4));
    }

    /// Reading field 5 back, after the fields before it.
    proof fn lemma_field_include_legacy_items(v: SpecCPublishedFile_GetItemChanges_Request)
        ensures
            fold_fields(Self::spec_prefix(v, 4), opt_bool(5, v.include_legacy_items), Self::apply_fn())
                == Ok::<SpecCPublishedFile_GetItemChanges_Request, WireError>(Self::spec_prefix(v, 5)),
    {
        reveal(CPublishedFile_GetItemChanges_Request::spec_prefix);
        reveal(opt_bool);
        let apply = Self::apply_fn();
        let s = Self::spec_prefix(v, 4);
        lemma_fold_opt(s, 5, match v.include_legacy_items { Some(x) => Some(enc_bool(x)), None => None }, apply);
        assert(SpecCPublishedFile_GetItemChanges_Request { include_legacy_items: v.include_legacy_items, ..s } == Self::spec_prefix(v, 5));
    }

    /// Whether this message declares field number `n`.
    pub open spec fn declares(n: u32) -> bool {
        n == 1 || n == 2 || n == 3 || n == 4 || n == 5
    }

    /// A record with a number this message does not declare is passed over: well-formed
    /// bytes decode to the same message with such a record after them as without it.
    pub proof fn lemma_unknown_field(bytes: Seq<u8>, f: SpecField)
        requires
            parse_fields(bytes) is Ok,
            field_wf(f),
            !Self::declares(f.number),
        ensures
            Self::spec_decode(bytes + field_bytes(f)) == Self::spec_decode(bytes),
    {
        reveal(CPublishedFile_GetItemChanges_Request::spec_decode);
        lemma_parse_fields_append(bytes, f);
        let fs = parse_fields(bytes).unwrap();
        let apply = Self::apply_fn();
        lemma_fold_concat(Self::spec_default(), fs, seq![f], apply);
        assert(fs.push(f) =~= fs + seq![f]);
        if let Ok(w) = fold_fields(Self::spec_default(), fs, apply) {
            lemma_fold_single(w, f, apply);
        }
        lemma_merge_run_fold(Self::spec_default(), bytes, apply);
        lemma_merge_run_fold(Self::spec_default(), bytes + field_bytes(f), apply);
    }

    /// Decoding the encoding of a message gives the message back.
    pub proof fn lemma_decode_encode(v: SpecCPublishedFile_GetItemChanges_Request)
        requires
            Self::spec_encode(v).len() <= u64::MAX,
        ensures
            Self::spec_decode(Self::spec_encode(v)) == Ok::<SpecCPublishedFile_GetItemChanges_Request, WireError>(v),
    {
        let apply = Self::apply_fn();
        let d = Self::spec_default();
        let p0 = Seq::<SpecField>::empty();
        let l1 = opt_u32(1, v.appid);
        let p1 = p0 + l1;
        let l2 = opt_u32(2, v.last_time_updated);
        let p2 = p1 + l2;
        let l3 = opt_u32(3, v.num_items_max);
        let p3 = p2 + l3;
        let l4 = opt_i32(4, v.desired_revision);
        let p4 = p3 + l4;
        let l5 = opt_bool(5, v.include_legacy_items);
        let p5 = p4 + l5;
        assert(parse_fields(Self::spec_encode(v)) == Ok::<Seq<SpecField>, WireError>(p5)) by {
            reveal(CPublishedFile_GetItemChanges_Request::spec_encode);
            assert(numbers_ok(p0) && fields_wf(p0)) by {
                reveal(numbers_ok);
                reveal(fields_wf);
            }
            lemma_opt_u32_numbered(1, v.appid);
            lemma_fields_wf_concat(p0, l1);
            lemma_opt_u32_numbered(2, v.last_time_updated);
            lemma_fields_wf_concat(p1, l2);
            lemma_opt_u32_numbered(3, v.num_items_max);
            lemma_fields_wf_concat(p2, l3);
            lemma_opt_i32_numbered(4, v.desired_revision);
            lemma_fields_wf_concat(p3, l4);
            lemma_opt_bool_numbered(5, v.include_legacy_items);
            lemma_fields_wf_concat(p4, l5);
            assert(p5 == Self::spec_fields(v));
            lemma_fields_wf_from_len(p5);
            lemma_fields_roundtrip(p5);
        }
        assert(Self::spec_prefix(v, 0) == d) by {
            reveal(CPublishedFile_GetItemChanges_Request::spec_prefix);
        }
        lemma_fold_empty(d, apply);
        lemma_fold_concat(d, p0, l1, apply);
        Self::lemma_field_appid(v);
        lemma_fold_concat(d, p1, l2, apply);
        Self::lemma_field_last_time_updated(v);
        lemma_fold_concat(d, p2, l3, apply);
        Self::lemma_field_num_items_max(v);
        lemma_fold_concat(d, p3, l4, apply);
        Self::lemma_field_desired_revision(v);
        lemma_fold_concat(d, p4, l5, apply);
        Self::lemma_field_include_legacy_items(v);
        assert(Self::spec_prefix(v, 5) == v) by {
            reveal(CPublishedFile_GetItemChanges_Request::spec_prefix);
        }
        lemma_merge_run_fold(d, Self::spec_encode(v), apply);
        assert(Self::spec_decode(Self::spec_encode(v)) == Ok::<SpecCPublishedFile_GetItemChanges_Request, WireError>(v)) by {
            reveal(CPublishedFile_GetItemChanges_Request::spec_decode);
        }
    }
}

/// `CPublishedFile_GetItemChanges_Response`, as Valve's schema declares it.
#[derive(Debug, Clone, PartialEq)]
pub struct CPublishedFile_GetItemChanges_Response {
    /// Field 1.
    pub update_time: Option<u32>,
    /// Field 2.
    pub workshop_items: Vec<crate::steammessages_publishedfile_steamclient::c_published_file_get_item_changes_response::WorkshopItemInfo>,
}

/// What a `CPublishedFile_GetItemChanges_Response` holds, as mathematical values.
#[verifier::ext_equal]
pub struct SpecCPublishedFile_GetItemChanges_Response {
    pub update_time: Option<u32>,
    pub workshop_items: Seq<crate::steammessages_publishedfile_steamclient::c_published_file_get_item_changes_response::SpecWorkshopItemInfo>,
}

impl View for CPublishedFile_GetItemChanges_Response {
    type V = SpecCPublishedFile_GetItemChanges_Response;

    open spec fn view(&self) -> SpecCPublishedFile_GetItemChanges_Response {
        SpecCPublishedFile_GetItemChanges_Response {
            update_time: self.update_time,
            workshop_items: crate::steammessages_publishedfile_steamclient::c_published_file_get_item_changes_response::WorkshopItemInfo::view_all(self.workshop_items@),
        }
    }
}

impl Default for CPublishedFile_GetItemChanges_Response {
    fn default() -> (r: Self)
        ensures
            r@ == CPublishedFile_GetItemChanges_Response::spec_default(),
    {
        CPublishedFile_GetItemChanges_Response {
            update_time: None,
            workshop_items: Vec::new(),
        }
    }
}

impl CPublishedFile_GetItemChanges_Response {
    pub open spec fn spec_default() -> SpecCPublishedFile_GetItemChanges_Response {
        SpecCPublishedFile_GetItemChanges_Response {
            update_time: None,
            workshop_items: Seq::empty(),
        }
    }

    /// The records a `CPublishedFile_GetItemChanges_Response` is written as, in field order.
    pub open spec fn spec_fields(v: SpecCPublishedFile_GetItemChanges_Response) -> Seq<SpecField> {
        Seq::<SpecField>::empty()
            + opt_u32(1, v.update_time)
            + rep_bytes(2, crate::steammessages_publishedfile_steamclient::c_published_file_get_item_changes_response::WorkshopItemInfo::spec_encode_all(v.workshop_items))
    }

    #[verifier::opaque]
    pub open spec fn spec_encode(v: SpecCPublishedFile_GetItemChanges_Response) -> Seq<u8> {
        fields_bytes(Self::spec_fields(v))
    }

    /// What one record does to the message: a declared number sets or extends its
    /// field, any other number is left alone.
    pub open spec fn spec_apply(v: SpecCPublishedFile_GetItemChanges_Response, f: SpecField) -> Result<SpecCPublishedFile_GetItemChanges_Response, WireError> {
        match f.number {
            1 => match dec_u32(f.value) {
                Ok(x) => Ok(SpecCPublishedFile_GetItemChanges_Response { update_time: Some(x), ..v }),
                Err(e) => Err(e),
            },
            2 => match dec_bytes(f.value) {
                Ok(b) => match crate::steammessages_publishedfile_steamclient::c_published_file_get_item_changes_response::WorkshopItemInfo::spec_decode(b) {
                    Ok(m) => Ok(SpecCPublishedFile_GetItemChanges_Response { workshop_items: v.workshop_items.push(m), ..v }),
                    Err(e) => Err(e),
                },
                Err(e) => Err(e),
            },
            _ => Ok(v),
        }
    }

    pub open spec fn apply_fn() -> spec_fn(SpecCPublishedFile_GetItemChanges_Response, SpecField) -> Result<SpecCPublishedFile_GetItemChanges_Response, WireError> {
        |v: SpecCPublishedFile_GetItemChanges_Response, f: SpecField| Self::spec_apply(v, f)
    }

    /// The message `bytes` makes of `v`: its records applied in order, or the error
    /// that stops the reading.
    pub open spec fn spec_merge(v: SpecCPublishedFile_GetItemChanges_Response, bytes: Seq<u8>) -> Result<SpecCPublishedFile_GetItemChanges_Response, WireError> {
        let (w, stop) = merge_run(v, bytes, Self::apply_fn());
        match stop {
            None => Ok(w),
            Some(e) => Err(e),
        }
    }

    #[verifier::opaque]
    pub open spec fn spec_decode(bytes: Seq<u8>) -> Result<SpecCPublishedFile_GetItemChanges_Response, WireError> {
        Self::spec_merge(Self::spec_default(), bytes)
    }

    /// This message with one record applied to it, or, when the record is refused,
    /// the message unchanged and the reason.
    fn applied(self, f: &Field) -> (r: Result<Self, (Self, WireError)>)
        ensures
            match Self::spec_apply(self@, f@) {
                Ok(v) => r matches Ok(m) && m@ == v,
                Err(e) => r matches Err((m, x)) && x == e && m@ == self@,
            },
    {
        match f.number {
            1 => match read_u32(&f.value) {
                Ok(x) => Ok(Self { update_time: Some(x), ..self }),
                Err(e) => Err((self, e)),
            },
            2 => match read_payload(&f.value) {
                Ok(b) => match crate::steammessages_publishedfile_steamclient::c_published_file_get_item_changes_response::WorkshopItemInfo::decode(b) {
                    Ok(x) => {
                        let mut m = self;
                        let ghost before = m.workshop_items@;
                        m.workshop_items.push(x);
                        assert(crate::steammessages_publishedfile_steamclient::c_published_file_get_item_changes_response::WorkshopItemInfo::view_all(m.workshop_items@) =~= crate::steammessages_publishedfile_steamclient::c_published_file_get_item_changes_response::WorkshopItemInfo::view_all(before).push(x@));
                        Ok(m)
                    },
                    Err(e) => Err((self, e)),
                },
                Err(e) => Err((self, e)),
            },
            _ => Ok(self),
        }
    }

    /// Reads the records `bytes` holds into this message, in order. When a record does
    /// not parse or is refused, the reading stops there: the message keeps what the
    /// records before it gave, and the error is returned.
    pub fn merge(&mut self, bytes: &[u8]) -> (r: Result<(), WireError>)
        ensures
            final(self)@ == merge_run(old(self)@, bytes@, Self::apply_fn()).0,
            r == match merge_run(old(self)@, bytes@, Self::apply_fn()).1 {
                None => Ok::<(), WireError>(()),
                Some(e) => Err::<(), WireError>(e),
            },
    {
        let ghost total = merge_run(self@, bytes@, Self::apply_fn());
        let mut cur = Self::default();
        std::mem::swap(&mut cur, self);
        let mut pos: usize = 0;
        assert(bytes@.skip(0) =~= bytes@);
        while pos < bytes.len()
            invariant
                pos <= bytes@.len(),
                total == merge_run(old(self)@, bytes@, Self::apply_fn()),
                merge_run(cur@, bytes@.skip(pos as int), Self::apply_fn()) == total,
            decreases bytes@.len() - pos,
        {
            let ghost s = bytes@.skip(pos as int);
            proof {
                lemma_merge_run_step(cur@, s, Self::apply_fn());
                lemma_parse_field_len(s);
            }
            match read_field(bytes, pos) {
                Ok((f, end)) => {
                    assert(bytes@.skip(end as int) =~= s.skip((end - pos) as int));
                    match cur.applied(&f) {
                        Ok(m) => {
                            cur = m;
                        },
                        Err((m, e)) => {
                            *self = m;
                            return Err(e);
                        },
                    }
                    pos = end;
                },
                Err(e) => {
                    *self = cur;
                    return Err(e);
                },
            }
        }
        assert(bytes@.skip(pos as int) =~= Seq::<u8>::empty());
        proof {
            lemma_merge_run_empty(cur@, Self::apply_fn());
        }
        *self = cur;
        Ok(())
    }

    /// Decodes a message from its encoding.
    pub fn decode(bytes: &[u8]) -> (r: Result<Self, WireError>)
        ensures
            match Self::spec_decode(bytes@) {
                Ok(v) => r matches Ok(m) && m@ == v,
                Err(e) => r matches Err(x) && x == e,
            },
    {
        proof {
            reveal(CPublishedFile_GetItemChanges_Response::spec_decode);
        }
        let mut m = Self::default();
        match m.merge(bytes) {
            Ok(()) => Ok(m),
            Err(e) => Err(e),
        }
    }

    /// The encoding of this message.
    pub fn encode_to_vec(&self) -> (r: Vec<u8>)
        ensures
            r@ == Self::spec_encode(self@),
    {
        let enc_workshop_items = crate::steammessages_publishedfile_steamclient::c_published_file_get_item_changes_response::WorkshopItemInfo::encode_all(&self.workshop_items);
        let ghost v = self@;
        let mut out: Vec<u8> = Vec::new();
        let ghost p0 = Seq::<SpecField>::empty();
        put_opt_u32(&mut out, 1, self.update_time);
        let ghost p1 = p0 + opt_u32(1, v.update_time);
        proof {
            lemma_fields_bytes_concat(p0, opt_u32(1, v.update_time));
        }
        put_rep_bytes(&mut out, 2, &enc_workshop_items);
        let ghost p2 = p1 + rep_bytes(2, crate::steammessages_publishedfile_steamclient::c_published_file_get_item_changes_response::WorkshopItemInfo::spec_encode_all(v.workshop_items));
        proof {
            lemma_fields_bytes_concat(p1, rep_bytes(2, crate::steammessages_publishedfile_steamclient::c_published_file_get_item_changes_response::WorkshopItemInfo::spec_encode_all(v.workshop_items)));
        }
        proof {
            reveal(CPublishedFile_GetItemChanges_Response::spec_encode);
        }
        assert(p2 == Self::spec_fields(v));
        out
    }

    /// Appends the encoding of this message to `out`.
    pub fn encode_raw(&self, out: &mut Vec<u8>)
        ensures
            final(out)@ == old(out)@ + Self::spec_encode(self@),
    {
        let mut b = self.encode_to_vec();
        out.append(&mut b);
    }

    /// The first `k` fields of `v`, the others as a fresh message has them.
    #[verifier::opaque]
    pub open spec fn spec_prefix(v: SpecCPublishedFile_GetItemChanges_Response, k: int) -> SpecCPublishedFile_GetItemChanges_Response {
        SpecCPublishedFile_GetItemChanges_Response {
            update_time: if 1 <= k { v.update_time } else { None },
            workshop_items: if 2 <= k { v.workshop_items } else { Seq::empty() },
        }
    }

    /// Reading field 1 back, after the fields before it.
    proof fn lemma_field_update_time(v: SpecCPublishedFile_GetItemChanges_Response)
        ensures
            fold_fields(Self::spec_prefix(v, 0), opt_u32(1, v.update_time), Self::apply_fn())
                == Ok::<SpecCPublishedFile_GetItemChanges_Response, WireError>(Self::spec_prefix(v, 1)),
    {
        reveal(CPublishedFile_GetItemChanges_Response::spec_prefix);
        reveal(opt_u32);
        let apply = Self::apply_fn();
        let s = Self::spec_prefix(v, 0);
        lemma_fold_opt(s, 1, match v.update_time { Some(x) => Some(enc_u32(x)), None => None }, apply);
        if let Some(x) = v.update_time {
            lemma_u32_roundtrip(x);
        }
        assert(SpecCPublishedFile_GetItemChanges_Response { update_time: v.update_time, ..s } == Self::spec_prefix(v, 1));
    }

    /// Reading field 2 back, after the fields before it.
    proof fn lemma_field_workshop_items(v: SpecCPublishedFile_GetItemChanges_Response)
        requires
            fields_wf(rep_bytes(2, crate::steammessages_publishedfile_steamclient::c_published_file_get_item_changes_response::WorkshopItemInfo::spec_encode_all(v.workshop_items))),
        ensures
            fold_fields(Self::spec_prefix(v, 1), rep_bytes(2, crate::steammessages_publishedfile_steamclient::c_published_file_get_item_changes_response::WorkshopItemInfo::spec_encode_all(v.workshop_items)), Self::apply_fn())
                == Ok::<SpecCPublishedFile_GetItemChanges_Response, WireError>(Self::spec_prefix(v, 2)),
    {
        reveal(CPublishedFile_GetItemChanges_Response::spec_prefix);
        reveal(rep_bytes);
        reveal(fields_wf);
        let apply = Self::apply_fn();
        let s = Self::spec_prefix(v, 1);
        let l = rep_bytes(2, crate::steammessages_publishedfile_steamclient::c_published_file_get_item_changes_response::WorkshopItemInfo::spec_encode_all(v.workshop_items));
        let xs = v.workshop_items;
        let st = Seq::new((xs.len() + 1) as nat, |j: int| SpecCPublishedFile_GetItemChanges_Response { workshop_items: xs.take(j), ..s });
        assert forall|j: int| 0 <= j < l.len() implies #[trigger] apply(st[j], l[j]) == Ok::<SpecCPublishedFile_GetItemChanges_Response, WireError>(st[j + 1]) by {
            assert(field_wf(l[j]));
            crate::steammessages_publishedfile_steamclient::c_published_file_get_item_changes_response::WorkshopItemInfo::lemma_decode_encode(xs[j]);
            assert(xs.take(j).push(xs[j]) =~= xs.take(j + 1));
        }
        lemma_fold_chain(l, st, apply);
        assert(xs.take(0) =~= Seq::<crate::steammessages_publishedfile_steamclient::c_published_file_get_item_changes_response::SpecWorkshopItemInfo>::empty());
        assert(xs.take(xs.len() as int) =~= xs);
        assert(st[0] == s);
        assert(st[xs.len() as int] == Self::spec_prefix(v, 2));
    }

    /// Whether this message declares field number `n`.
    pub open spec fn declares(n: u32) -> bool {
        n == 1 || n == 2
    }

    /// A record with a number this message does not declare is passed over: well-formed
    /// bytes decode to the same message with such a record after them as without it.
    pub proof fn lemma_unknown_field(bytes: Seq<u8>, f: SpecField)
        requires
            parse_fields(bytes) is Ok,
            field_wf(f),
            !Self::declares(f.number),
        ensures
            Self::spec_decode(bytes + field_bytes(f)) == Self::spec_decode(bytes),
    {
        reveal(CPublishedFile_GetItemChanges_Response::spec_decode);
        lemma_parse_fields_append(bytes, f);
        let fs = parse_fields(bytes).unwrap();
        let apply = Self::apply_fn();
        lemma_fold_concat(Self::spec_default(), fs, seq![f], apply);
        assert(fs.push(f) =~= fs + seq![f]);
        if let Ok(w) = fold_fields(Self::spec_default(), fs, apply) {
            lemma_fold_single(w, f, apply);
        }
        lemma_merge_run_fold(Self::spec_default(), bytes, apply);
        lemma_merge_run_fold(Self::spec_default(), bytes + field_bytes(f), apply);
    }

    /// Decoding the encoding of a message gives the message back.
    pub proof fn lemma_decode_encode(v: SpecCPublishedFile_GetItemChanges_Response)
        requires
            Self::spec_encode(v).len() <= u64::MAX,
        ensures
            Self::spec_decode(Self::spec_encode(v)) == Ok::<SpecCPublishedFile_GetItemChanges_Response, WireError>(v),
    {
        let apply = Self::apply_fn();
        let d = Self::spec_default();
        let p0 = Seq::<SpecField>::empty();
        let l1 = opt_u32(1, v.update_time);
        let p1 = p0 + l1;
        let l2 = rep_bytes(2, crate::steammessages_publishedfile_steamclient::c_published_file_get_item_changes_response::WorkshopItemInfo::spec_encode_all(v.workshop_items));
        let p2 = p1 + l2;
        assert(parse_fields(Self::spec_encode(v)) == Ok::<Seq<SpecField>, WireError>(p2) && fields_wf(l2)) by {
            reveal(CPublishedFile_GetItemChanges_Response::spec_encode);
            assert(numbers_ok(p0) && fields_wf(p0)) by {
                reveal(numbers_ok);
                reveal(fields_wf);
            }
            lemma_opt_u32_numbered(1, v.update_time);
            lemma_fields_wf_concat(p0, l1);
            lemma_rep_bytes_numbered(2, crate::steammessages_publishedfile_steamclient::c_published_file_get_item_changes_response::WorkshopItemInfo::spec_encode_all(v.workshop_items));
            lemma_fields_wf_concat(p1, l2);
            assert(p2 == Self::spec_fields(v));
            lemma_fields_wf_from_len(p2);
            lemma_fields_roundtrip(p2);
        }
        assert(Self::spec_prefix(v, 0) == d) by {
            reveal(CPublishedFile_GetItemChanges_Response::spec_prefix);
        }
        lemma_fold_empty(d, apply);
        lemma_fold_concat(d, p0, l1, apply);
        Self::lemma_field_update_time(v);
        lemma_fold_concat(d, p1, l2, apply);
        Self::lemma_field_workshop_items(v);
        assert(Self::spec_prefix(v, 2) == v) by {
            reveal(CPublishedFile_GetItemChanges_Response::spec_prefix);
        }
        lemma_merge_run_fold(d, Self::spec_encode(v), apply);
        assert(Self::spec_decode(Self::spec_encode(v)) == Ok::<SpecCPublishedFile_GetItemChanges_Response, WireError>(v)) by {
            reveal(CPublishedFile_GetItemChanges_Response::spec_decode);
        }
    }
}

/// `CPublishedFile_GetContentDescriptors_Request`, as Valve's schema declares it.
#[derive(Debug, Clone, PartialEq)]
pub struct CPublishedFile_GetContentDescriptors_Request {
    /// Field 1.
    pub publishedfileid: Option<u64>,
}

/// What a `CPublishedFile_GetContentDescriptors_Request` holds, as mathematical values.
#[verifier::ext_equal]
pub struct SpecCPublishedFile_GetContentDescriptors_Request {
    pub publishedfileid: Option<u64>,
}

impl View for CPublishedFile_GetContentDescriptors_Request {
    type V = SpecCPublishedFile_GetContentDescriptors_Request;

    open spec fn view(&self) -> SpecCPublishedFile_GetContentDescriptors_Request {
        SpecCPublishedFile_GetContentDescriptors_Request {
            publishedfileid: self.publishedfileid,
        }
    }
}

impl Default for CPublishedFile_GetContentDescriptors_Request {
    fn default() -> (r: Self)
        ensures
            r@ == CPublishedFile_GetContentDescriptors_Request::spec_default(),
    {
        CPublishedFile_GetContentDescriptors_Request {
            publishedfileid: None,
        }
    }
}

impl CPublishedFile_GetContentDescriptors_Request {
    pub open spec fn spec_default() -> SpecCPublishedFile_GetContentDescriptors_Request {
        SpecCPublishedFile_GetContentDescriptors_Request {
            publishedfileid: None,
        }
    }

    /// The records a `CPublishedFile_GetContentDescriptors_Request` is written as, in field order.
    pub open spec fn spec_fields(v: SpecCPublishedFile_GetContentDescriptors_Request) -> Seq<SpecField> {
        Seq::<SpecField>::empty()
            + opt_fixed64(1, v.publishedfileid)
    }

    #[verifier::opaque]
    pub open spec fn spec_encode(v: SpecCPublishedFile_GetContentDescriptors_Request) -> Seq<u8> {
        fields_bytes(Self::spec_fields(v))
    }

    /// What one record does to the message: a declared number sets or extends its
    /// field, any other number is left alone.
    pub open spec fn spec_apply(v: SpecCPublishedFile_GetContentDescriptors_Request, f: SpecField) -> Result<SpecCPublishedFile_GetContentDescriptors_Request, WireError> {
        match f.number {
            1 => match dec_fixed64(f.value) {
                Ok(x) => Ok(SpecCPublishedFile_GetContentDescriptors_Request { publishedfileid: Some(x), ..v }),
                Err(e) => Err(e),
            },
            _ => Ok(v),
        }
    }

    pub open spec fn apply_fn() -> spec_fn(SpecCPublishedFile_GetContentDescriptors_Request, SpecField) -> Result<SpecCPublishedFile_GetContentDescriptors_Request, WireError> {
        |v: SpecCPublishedFile_GetContentDescriptors_Request, f: SpecField| Self::spec_apply(v, f)
    }

    /// The message `bytes` makes of `v`: its records applied in order, or the error
    /// that stops the reading.
    pub open spec fn spec_merge(v: SpecCPublishedFile_GetContentDescriptors_Request, bytes: Seq<u8>) -> Result<SpecCPublishedFile_GetContentDescriptors_Request, WireError> {
        let (w, stop) = merge_run(v, bytes, Self::apply_fn());
        match stop {
            None => Ok(w),
            Some(e) => Err(e),
        }
    }

    #[verifier::opaque]
    pub open spec fn spec_decode(bytes: Seq<u8>) -> Result<SpecCPublishedFile_GetContentDescriptors_Request, WireError> {
        Self::spec_merge(Self::spec_default(), bytes)
    }

    /// This message with one record applied to it, or, when the record is refused,
    /// the message unchanged and the reason.
    fn applied(self, f: &Field) -> (r: Result<Self, (Self, WireError)>)
        ensures
            match Self::spec_apply(self@, f@) {
                Ok(v) => r matches Ok(m) && m@ == v,
                Err(e) => r matches Err((m, x)) && x == e && m@ == self@,
            },
    {
        match f.number {
            1 => match read_fixed64(&f.value) {
                Ok(x) => Ok(Self { publishedfileid: Some(x), ..self }),
                Err(e) => Err((self, e)),
            },
            _ => Ok(self),
        }
    }

    /// Reads the records `bytes` holds into this message, in order. When a record does
    /// not parse or is refused, the reading stops there: the message keeps what the
    /// records before it gave, and the error is returned.
    pub fn merge(&mut self, bytes: &[u8]) -> (r: Result<(), WireError>)
        ensures
            final(self)@ == merge_run(old(self)@, bytes@, Self::apply_fn()).0,
            r == match merge_run(old(self)@, bytes@, Self::apply_fn()).1 {
                None => Ok::<(), WireError>(()),
                Some(e) => Err::<(), WireError>(e),
            },
    {
        let ghost total = merge_run(self@, bytes@, Self::apply_fn());
        let mut cur = Self::default();
        std::mem::swap(&mut cur, self);
        let mut pos: usize = 0;
        assert(bytes@.skip(0) =~= bytes@);
        while pos < bytes.len()
            invariant
                pos <= bytes@.len(),
                total == merge_run(old(self)@, bytes@, Self::apply_fn()),
                merge_run(cur@, bytes@.skip(pos as int), Self::apply_fn()) == total,
            decreases bytes@.len() - pos,
        {
            let ghost s = bytes@.skip(pos as int);
            proof {
                lemma_merge_run_step(cur@, s, Self::apply_fn());
                lemma_parse_field_len(s);
            }
            match read_field(bytes, pos) {
                Ok((f, end)) => {
                    assert(bytes@.skip(end as int) =~= s.skip((end - pos) as int));
                    match cur.applied(&f) {
                        Ok(m) => {
                            cur = m;
                        },
                        Err((m, e)) => {
                            *self = m;
                            return Err(e);
                        },
                    }
                    pos = end;
                },
                Err(e) => {
                    *self = cur;
                    return Err(e);
                },
            }
        }
        assert(bytes@.skip(pos as int) =~= Seq::<u8>::empty());
        proof {
            lemma_merge_run_empty(cur@, Self::apply_fn());
        }
        *self = cur;
        Ok(())
    }

    /// Decodes a message from its encoding.
    pub fn decode(bytes: &[u8]) -> (r: Result<Self, WireError>)
        ensures
            match Self::spec_decode(bytes@) {
                Ok(v) => r matches Ok(m) && m@ == v,
                Err(e) => r matches Err(x) && x == e,
            },
    {
        proof {
            reveal(CPublishedFile_GetContentDescriptors_Request::spec_decode);
        }
        let mut m = Self::default();
        match m.merge(bytes) {
            Ok(()) => Ok(m),
            Err(e) => Err(e),
        }
    }

    /// The encoding of this message.
    pub fn encode_to_vec(&self) -> (r: Vec<u8>)
        ensures
            r@ == Self::spec_encode(self@),
    {
        let ghost v = self@;
        let mut out: Vec<u8> = Vec::new();
        let ghost p0 = Seq::<SpecField>::empty();
        put_opt_fixed64(&mut out, 1, self.publishedfileid);
        let ghost p1 = p0 + opt_fixed64(1, v.publishedfileid);
        proof {
            lemma_fields_bytes_concat(p0, opt_fixed64(1, v.publishedfileid));
        }
        proof {
            reveal(CPublishedFile_GetContentDescriptors_Request::spec_encode);
        }
        assert(p1 == Self::spec_fields(v));
        out
    }

    /// Appends the encoding of this message to `out`.
    pub fn encode_raw(&self, out: &mut Vec<u8>)
        ensures
            final(out)@ == old(out)@ + Self::spec_encode(self@),
    {
        let mut b = self.encode_to_vec();
        out.append(&mut b);
    }

    /// The first `k` fields of `v`, the others as a fresh message has them.
    #[verifier::opaque]
    pub open spec fn spec_prefix(v: SpecCPublishedFile_GetContentDescriptors_Request, k: int) -> SpecCPublishedFile_GetContentDescriptors_Request {
        SpecCPublishedFile_GetContentDescriptors_Request {
            publishedfileid: if 1 <= k { v.publishedfileid } else { None },
        }
    }

    /// Reading field 1 back, after the fields before it.
    proof fn lemma_field_publishedfileid(v: SpecCPublishedFile_GetContentDescriptors_Request)
        ensures
            fold_fields(Self::spec_prefix(v, 0), opt_fixed64(1, v.publishedfileid), Self::apply_fn())
                == Ok::<SpecCPublishedFile_GetContentDescriptors_Request, WireError>(Self::spec_prefix(v, 1)),
    {
        reveal(CPublishedFile_GetContentDescriptors_Request::spec_prefix);
        reveal(opt_fixed64);
        let apply = Self::apply_fn();
        let s = Self::spec_prefix(v, 0);
        lemma_fold_opt(s, 1, match v.publishedfileid { Some(x) => Some(enc_fixed64(x)), None => None }, apply);
        if let Some(x) = v.publishedfileid {
            lemma_u64_roundtrip(x);
        }
        assert(SpecCPublishedFile_GetContentDescriptors_Request { publishedfileid: v.publishedfileid, ..s } == Self::spec_prefix(v, 1));
    }

    /// Whether this message declares field number `n`.
    pub open spec fn declares(n: u32) -> bool {
        n == 1
    }

    /// A record with a number this message does not declare is passed over: well-formed
    /// bytes decode to the same message with such a record after them as without it.
    pub proof fn lemma_unknown_field(bytes: Seq<u8>, f: SpecField)
        requires
            parse_fields(bytes) is Ok,
            field_wf(f),
            !Self::declares(f.number),
        ensures
            Self::spec_decode(bytes + field_bytes(f)) == Self::spec_decode(bytes),
    {
        reveal(CPublishedFile_GetContentDescriptors_Request::spec_decode);
        lemma_parse_fields_append(bytes, f);
        let fs = parse_fields(bytes).unwrap();
        let apply = Self::apply_fn();
        lemma_fold_concat(Self::spec_default(), fs, seq![f], apply);
        assert(fs.push(f) =~= fs + seq![f]);
        if let Ok(w) = fold_fields(Self::spec_default(), fs, apply) {
            lemma_fold_single(w, f, apply);
        }
        lemma_merge_run_fold(Self::spec_default(), bytes, apply);
        lemma_merge_run_fold(Self::spec_default(), bytes + field_bytes(f), apply);
    }

    /// Decoding the encoding of a message gives the message back.
    pub proof fn lemma_decode_encode(v: SpecCPublishedFile_GetContentDescriptors_Request)
        requires
            Self::spec_encode(v).len() <= u64::MAX,
        ensures
            Self::spec_decode(Self::spec_encode(v)) == Ok::<SpecCPublishedFile_GetContentDescriptors_Request, WireError>(v),
    {
        let apply = Self::apply_fn();
        let d = Self::spec_default();
        let p0 = Seq::<SpecField>::empty();
        let l1 = opt_fixed64(1, v.publishedfileid);
        let p1 = p0 + l1;
        assert(parse_fields(Self::spec_encode(v)) == Ok::<Seq<SpecField>, WireError>(p1)) by {
            reveal(CPublishedFile_GetContentDescriptors_Request::spec_encode);
            assert(numbers_ok(p0) && fields_wf(p0)) by {
                reveal(numbers_ok);
                reveal(fields_wf);
            }
            lemma_opt_fixed64_numbered(1, v.publishedfileid);
            lemma_fields_wf_concat(p0, l1);
            assert(p1 == Self::spec_fields(v));
            lemma_fields_wf_from_len(p1);
            lemma_fields_roundtrip(p1);
        }
        assert(Self::spec_prefix(v, 0) == d) by {
            reveal(CPublishedFile_GetContentDescriptors_Request::spec_prefix);
        }
        lemma_fold_empty(d, apply);
        lemma_fold_concat(d, p0, l1, apply);
        Self::lemma_field_publishedfileid(v);
        assert(Self::spec_prefix(v, 1) == v) by {
            reveal(CPublishedFile_GetContentDescriptors_Request::spec_prefix);
        }
        lemma_merge_run_fold(d, Self::spec_encode(v), apply);
        assert(Self::spec_decode(Self::spec_encode(v)) == Ok::<SpecCPublishedFile_GetContentDescriptors_Request, WireError>(v)) by {
            reveal(CPublishedFile_GetContentDescriptors_Request::spec_decode);
        }
    }
}

/// `CPublishedFile_GetContentDescriptors_Response`, as Valve's schema declares it.
#[derive(Debug, Clone, PartialEq)]
pub struct CPublishedFile_GetContentDescriptors_Response {
    /// Field 1.
    pub content_descriptors: Vec<crate::steammessages_publishedfile_steamclient::c_published_file_get_content_descriptors_response::ContentDescriptor>,
}

/// What a `CPublishedFile_GetContentDescriptors_Response` holds, as mathematical values.
#[verifier::ext_equal]
pub struct SpecCPublishedFile_GetContentDescriptors_Response {
    pub content_descriptors: Seq<crate::steammessages_publishedfile_steamclient::c_published_file_get_content_descriptors_response::SpecContentDescriptor>,
}

impl View for CPublishedFile_GetContentDescriptors_Response {
    type V = SpecCPublishedFile_GetContentDescriptors_Response;

    open spec fn view(&self) -> SpecCPublishedFile_GetContentDescriptors_Response {
        SpecCPublishedFile_GetContentDescriptors_Response {
            content_descriptors: crate::steammessages_publishedfile_steamclient::c_published_file_get_content_descriptors_response::ContentDescriptor::view_all(self.content_descriptors@),
        }
    }
}

impl Default for CPublishedFile_GetContentDescriptors_Response {
    fn default() -> (r: Self)
        ensures
            r@ == CPublishedFile_GetContentDescriptors_Response::spec_default(),
    {
        CPublishedFile_GetContentDescriptors_Response {
            content_descriptors: Vec::new(),
        }
    }
}

impl CPublishedFile_GetContentDescriptors_Response {
    pub open spec fn spec_default() -> SpecCPublishedFile_GetContentDescriptors_Response {
        SpecCPublishedFile_GetContentDescriptors_Response {
            content_descriptors: Seq::empty(),
        }
    }

    /// The records a `CPublishedFile_GetContentDescriptors_Response` is written as, in field order.
    pub open spec fn spec_fields(v: SpecCPublishedFile_GetContentDescriptors_Response) -> Seq<SpecField> {
        Seq::<SpecField>::empty()
            + rep_bytes(1, crate::steammessages_publishedfile_steamclient::c_published_file_get_content_descriptors_response::ContentDescriptor::spec_encode_all(v.content_descriptors))
    }

    #[verifier::opaque]
    pub open spec fn spec_encode(v: SpecCPublishedFile_GetContentDescriptors_Response) -> Seq<u8> {
        fields_bytes(Self::spec_fields(v))
    }

    /// What one record does to the message: a declared number sets or extends its
    /// field, any other number is left alone.
    pub open spec fn spec_apply(v: SpecCPublishedFile_GetContentDescriptors_Response, f: SpecField) -> Result<SpecCPublishedFile_GetContentDescriptors_Response, WireError> {
        match f.number {
            1 => match dec_bytes(f.value) {
                Ok(b) => match crate::steammessages_publishedfile_steamclient::c_published_file_get_content_descriptors_response::ContentDescriptor::spec_decode(b) {
                    Ok(m) => Ok(SpecCPublishedFile_GetContentDescriptors_Response { content_descriptors: v.content_descriptors.push(m), ..v }),
                    Err(e) => Err(e),
                },
                Err(e) => Err(e),
            },
            _ => Ok(v),
        }
    }

    pub open spec fn apply_fn() -> spec_fn(SpecCPublishedFile_GetContentDescriptors_Response, SpecField) -> Result<SpecCPublishedFile_GetContentDescriptors_Response, WireError> {
        |v: SpecCPublishedFile_GetContentDescriptors_Response, f: SpecField| Self::spec_apply(v, f)
    }

    /// The message `bytes` makes of `v`: its records applied in order, or the error
    /// that stops the reading.
    pub open spec fn spec_merge(v: SpecCPublishedFile_GetContentDescriptors_Response, bytes: Seq<u8>) -> Result<SpecCPublishedFile_GetContentDescriptors_Response, WireError> {
        let (w, stop) = merge_run(v, bytes, Self::apply_fn());
        match stop {
            None => Ok(w),
            Some(e) => Err(e),
        }
    }

    #[verifier::opaque]
    pub open spec fn spec_decode(bytes: Seq<u8>) -> Result<SpecCPublishedFile_GetContentDescriptors_Response, WireError> {
        Self::spec_merge(Self::spec_default(), bytes)
    }

    /// This message with one record applied to it, or, when the record is refused,
    /// the message unchanged and the reason.
    fn applied(self, f: &Field) -> (r: Result<Self, (Self, WireError)>)
        ensures
            match Self::spec_apply(self@, f@) {
                Ok(v) => r matches Ok(m) && m@ == v,
                Err(e) => r matches Err((m, x)) && x == e && m@ == self@,
            },
    {
        match f.number {
            1 => match read_payload(&f.value) {
                Ok(b) => match crate::steammessages_publishedfile_steamclient::c_published_file_get_content_descriptors_response::ContentDescriptor::decode(b) {
                    Ok(x) => {
                        let mut m = self;
                        let ghost before = m.content_descriptors@;
                        m.content_descriptors.push(x);
                        assert(crate::steammessages_publishedfile_steamclient::c_published_file_get_content_descriptors_response::ContentDescriptor::view_all(m.content_descriptors@) =~= crate::steammessages_publishedfile_steamclient::c_published_file_get_content_descriptors_response::ContentDescriptor::view_all(before).push(x@));
                        Ok(m)
                    },
                    Err(e) => Err((self, e)),
                },
                Err(e) => Err((self, e)),
            },
            _ => Ok(self),
        }
    }

    /// Reads the records `bytes` holds into this message, in order. When a record does
    /// not parse or is refused, the reading stops there: the message keeps what the
    /// records before it gave, and the error is returned.
    pub fn merge(&mut self, bytes: &[u8]) -> (r: Result<(), WireError>)
        ensures
            final(self)@ == merge_run(old(self)@, bytes@, Self::apply_fn()).0,
            r == match merge_run(old(self)@, bytes@, Self::apply_fn()).1 {
                None => Ok::<(), WireError>(()),
                Some(e) => Err::<(), WireError>(e),
            },
    {
        let ghost total = merge_run(self@, bytes@, Self::apply_fn());
        let mut cur = Self::default();
        std::mem::swap(&mut cur, self);
        let mut pos: usize = 0;
        assert(bytes@.skip(0) =~= bytes@);
        while pos < bytes.len()
            invariant
                pos <= bytes@.len(),
                total == merge_run(old(self)@, bytes@, Self::apply_fn()),
                merge_run(cur@, bytes@.skip(pos as int), Self::apply_fn()) == total,
            decreases bytes@.len() - pos,
        {
            let ghost s = bytes@.skip(pos as int);
            proof {
                lemma_merge_run_step(cur@, s, Self::apply_fn());
                lemma_parse_field_len(s);
            }
            match read_field(bytes, pos) {
                Ok((f, end)) => {
                    assert(bytes@.skip(end as int) =~= s.skip((end - pos) as int));
                    match cur.applied(&f) {
                        Ok(m) => {
                            cur = m;
                        },
                        Err((m, e)) => {
                            *self = m;
                            return Err(e);
                        },
                    }
                    pos = end;
                },
                Err(e) => {
                    *self = cur;
                    return Err(e);
                },
            }
        }
        assert(bytes@.skip(pos as int) =~= Seq::<u8>::empty());
        proof {
            lemma_merge_run_empty(cur@, Self::apply_fn());
        }
        *self = cur;
        Ok(())
    }

    /// Decodes a message from its encoding.
    pub fn decode(bytes: &[u8]) -> (r: Result<Self, WireError>)
        ensures
            match Self::spec_decode(bytes@) {
                Ok(v) => r matches Ok(m) && m@ == v,
                Err(e) => r matches Err(x) && x == e,
            },
    {
        proof {
            reveal(CPublishedFile_GetContentDescriptors_Response::spec_decode);
        }
        let mut m = Self::default();
        match m.merge(bytes) {
            Ok(()) => Ok(m),
            Err(e) => Err(e),
        }
    }

    /// The encoding of this message.
    pub fn encode_to_vec(&self) -> (r: Vec<u8>)
        ensures
            r@ == Self::spec_encode(self@),
    {
        let enc_content_descriptors = crate::steammessages_publishedfile_steamclient::c_published_file_get_content_descriptors_response::ContentDescriptor::encode_all(&self.content_descriptors);
        let ghost v = self@;
        let mut out: Vec<u8> = Vec::new();
        let ghost p0 = Seq::<SpecField>::empty();
        put_rep_bytes(&mut out, 1, &enc_content_descriptors);
        let ghost p1 = p0 + rep_bytes(1, crate::steammessages_publishedfile_steamclient::c_published_file_get_content_descriptors_response::ContentDescriptor::spec_encode_all(v.content_descriptors));
        proof {
            lemma_fields_bytes_concat(p0, rep_bytes(1, crate::steammessages_publishedfile_steamclient::c_published_file_get_content_descriptors_response::ContentDescriptor::spec_encode_all(v.content_descriptors)));
        }
        proof {
            reveal(CPublishedFile_GetContentDescriptors_Response::spec_encode);
        }
        assert(p1 == Self::spec_fields(v));
        out
    }

    /// Appends the encoding of this message to `out`.
    pub fn encode_raw(&self, out: &mut Vec<u8>)
        ensures
            final(out)@ == old(out)@ + Self::spec_encode(self@),
    {
        let mut b = self.encode_to_vec();
        out.append(&mut b);
    }

    /// The first `k` fields of `v`, the others as a fresh message has them.
    #[verifier::opaque]
    pub open spec fn spec_prefix(v: SpecCPublishedFile_GetContentDescriptors_Response, k: int) -> SpecCPublishedFile_GetContentDescriptors_Response {
        SpecCPublishedFile_GetContentDescriptors_Response {
            content_descriptors: if 1 <= k { v.content_descriptors } else { Seq::empty() },
        }
    }

    /// Reading field 1 back, after the fields before it.
    proof fn lemma_field_content_descriptors(v: SpecCPublishedFile_GetContentDescriptors_Response)
        requires
            fields_wf(rep_bytes(1, crate::steammessages_publishedfile_steamclient::c_published_file_get_content_descriptors_response::ContentDescriptor::spec_encode_all(v.content_descriptors))),
        ensures
            fold_fields(Self::spec_prefix(v, 0), rep_bytes(1, crate::steammessages_publishedfile_steamclient::c_published_file_get_content_descriptors_response::ContentDescriptor::spec_encode_all(v.content_descriptors)), Self::apply_fn())
                == Ok::<SpecCPublishedFile_GetContentDescriptors_Response, WireError>(Self::spec_prefix(v, 1)),
    {
        reveal(CPublishedFile_GetContentDescriptors_Response::spec_prefix);
        reveal(rep_bytes);
        reveal(fields_wf);
        let apply = Self::apply_fn();
        let s = Self::spec_prefix(v, 0);
        let l = rep_bytes(1, crate::steammessages_publishedfile_steamclient::c_published_file_get_content_descriptors_response::ContentDescriptor::spec_encode_all(v.content_descriptors));
        let xs = v.content_descriptors;
        let st = Seq::new((xs.len() + 1) as nat, |j: int| SpecCPublishedFile_GetContentDescriptors_Response { content_descriptors: xs.take(j), ..s });
        assert forall|j: int| 0 <= j < l.len() implies #[trigger] apply(st[j], l[j]) == Ok::<SpecCPublishedFile_GetContentDescriptors_Response, WireError>(st[j + 1]) by {
            assert(field_wf(l[j]));
            crate::steammessages_publishedfile_steamclient::c_published_file_get_content_descriptors_response::ContentDescriptor::lemma_decode_encode(xs[j]);
            assert(xs.take(j).push(xs[j]) =~= xs.take(j + 1));
        }
        lemma_fold_chain(l, st, apply);
        assert(xs.take(0) =~= Seq::<crate::steammessages_publishedfile_steamclient::c_published_file_get_content_descriptors_response::SpecContentDescriptor>::empty());
        assert(xs.take(xs.len() as int) =~= xs);
        assert(st[0] == s);
        assert(st[xs.len() as int] == Self::spec_prefix(v, 1));
    }

    /// Whether this message declares field number `n`.
    pub open spec fn declares(n: u32) -> bool {
        n == 1
    }

    /// A record with a number this message does not declare is passed over: well-formed
    /// bytes decode to the same message with such a record after them as without it.
    pub proof fn lemma_unknown_field(bytes: Seq<u8>, f: SpecField)
        requires
            parse_fields(bytes) is Ok,
            field_wf(f),
            !Self::declares(f.number),
        ensures
            Self::spec_decode(bytes + field_bytes(f)) == Self::spec_decode(bytes),
    {
        reveal(CPublishedFile_GetContentDescriptors_Response::spec_decode);
        lemma_parse_fields_append(bytes, f);
        let fs = parse_fields(bytes).unwrap();
        let apply = Self::apply_fn();
        lemma_fold_concat(Self::spec_default(), fs, seq![f], apply);
        assert(fs.push(f) =~= fs + seq![f]);
        if let Ok(w) = fold_fields(Self::spec_default(), fs, apply) {
            lemma_fold_single(w, f, apply);
        }
        lemma_merge_run_fold(Self::spec_default(), bytes, apply);
        lemma_merge_run_fold(Self::spec_default(), bytes + field_bytes(f), apply);
    }

    /// Decoding the encoding of a message gives the message back.
    pub proof fn lemma_decode_encode(v: SpecCPublishedFile_GetContentDescriptors_Response)
        requires
            Self::spec_encode(v).len() <= u64::MAX,
        ensures
            Self::spec_decode(Self::spec_encode(v)) == Ok::<SpecCPublishedFile_GetContentDescriptors_Response, WireError>(v),
    {
        let apply = Self::apply_fn();
        let d = Self::spec_default();
        let p0 = Seq::<SpecField>::empty();
        let l1 = rep_bytes(1, crate::steammessages_publishedfile_steamclient::c_published_file_get_content_descriptors_response::ContentDescriptor::spec_encode_all(v.content_descriptors));
        let p1 = p0 + l1;
        assert(parse_fields(Self::spec_encode(v)) == Ok::<Seq<SpecField>, WireError>(p1) && fields_wf(l1)) by {
            reveal(CPublishedFile_GetContentDescriptors_Response::spec_encode);
            assert(numbers_ok(p0) && fields_wf(p0)) by {
                reveal(numbers_ok);
                reveal(fields_wf);
            }
            lemma_rep_bytes_numbered(1, crate::steammessages_publishedfile_steamclient::c_published_file_get_content_descriptors_response::ContentDescriptor::spec_encode_all(v.content_descriptors));
            lemma_fields_wf_concat(p0, l1);
            assert(p1 == Self::spec_fields(v));
            lemma_fields_wf_from_len(p1);
            lemma_fields_roundtrip(p1);
        }
        assert(Self::spec_prefix(v, 0) == d) by {
            reveal(CPublishedFile_GetContentDescriptors_Response::spec_prefix);
        }
        lemma_fold_empty(d, apply);
        lemma_fold_concat(d, p0, l1, apply);
        Self::lemma_field_content_descriptors(v);
        assert(Self::spec_prefix(v, 1) == v) by {
            reveal(CPublishedFile_GetContentDescriptors_Response::spec_prefix);
        }
        lemma_merge_run_fold(d, Self::spec_encode(v), apply);
        assert(Self::spec_decode(Self::spec_encode(v)) == Ok::<SpecCPublishedFile_GetContentDescriptors_Response, WireError>(v)) by {
            reveal(CPublishedFile_GetContentDescriptors_Response::spec_decode);
        }
    }
}

/// `CPublishedFile_UpdateContentDescriptors_Request`, as Valve's schema declares it.
#[derive(Debug, Clone, PartialEq)]
pub struct CPublishedFile_UpdateContentDescriptors_Request {
    /// Field 1.
    pub publishedfileid: Option<u64>,
    /// Field 2.
    pub descriptors_to_add: Vec<crate::enums_productinfo::EContentDescriptorID>,
    /// Field 3.
    pub descriptors_to_remove: Vec<crate::enums_productinfo::EContentDescriptorID>,
}

/// What a `CPublishedFile_UpdateContentDescriptors_Request` holds, as mathematical values.
#[verifier::ext_equal]
pub struct SpecCPublishedFile_UpdateContentDescriptors_Request {
    pub publishedfileid: Option<u64>,
    pub descriptors_to_add: Seq<i32>,
    pub descriptors_to_remove: Seq<i32>,
}

impl View for CPublishedFile_UpdateContentDescriptors_Request {
    type V = SpecCPublishedFile_UpdateContentDescriptors_Request;

    open spec fn view(&self) -> SpecCPublishedFile_UpdateContentDescriptors_Request {
        SpecCPublishedFile_UpdateContentDescriptors_Request {
            publishedfileid: self.publishedfileid,
            descriptors_to_add: crate::enums_productinfo::EContentDescriptorID::values(self.descriptors_to_add@),
            descriptors_to_remove: crate::enums_productinfo::EContentDescriptorID::values(self.descriptors_to_remove@),
        }
    }
}

impl Default for CPublishedFile_UpdateContentDescriptors_Request {
    fn default() -> (r: Self)
        ensures
            r@ == CPublishedFile_UpdateContentDescriptors_Request::spec_default(),
    {
        CPublishedFile_UpdateContentDescriptors_Request {
            publishedfileid: None,
            descriptors_to_add: Vec::new(),
            descriptors_to_remove: Vec::new(),
        }
    }
}

impl CPublishedFile_UpdateContentDescriptors_Request {
    pub open spec fn spec_default() -> SpecCPublishedFile_UpdateContentDescriptors_Request {
        SpecCPublishedFile_UpdateContentDescriptors_Request {
            publishedfileid: None,
            descriptors_to_add: Seq::empty(),
            descriptors_to_remove: Seq::empty(),
        }
    }

    /// The records a `CPublishedFile_UpdateContentDescriptors_Request` is written as, in field order.
    pub open spec fn spec_fields(v: SpecCPublishedFile_UpdateContentDescriptors_Request) -> Seq<SpecField> {
        Seq::<SpecField>::empty()
            + opt_fixed64(1, v.publishedfileid)
            + rep_i32(2, v.descriptors_to_add)
            + rep_i32(3, v.descriptors_to_remove)
    }

    #[verifier::opaque]
    pub open spec fn spec_encode(v: SpecCPublishedFile_UpdateContentDescriptors_Request) -> Seq<u8> {
        fields_bytes(Self::spec_fields(v))
    }

    /// What one record does to the message: a declared number sets or extends its
    /// field, any other number is left alone.
    pub open spec fn spec_apply(v: SpecCPublishedFile_UpdateContentDescriptors_Request, f: SpecField) -> Result<SpecCPublishedFile_UpdateContentDescriptors_Request, WireError> {
        match f.number {
            1 => match dec_fixed64(f.value) {
                Ok(x) => Ok(SpecCPublishedFile_UpdateContentDescriptors_Request { publishedfileid: Some(x), ..v }),
                Err(e) => Err(e),
            },
            2 => match dec_packed_i32(f.value) {
                Ok(xs) => Ok(SpecCPublishedFile_UpdateContentDescriptors_Request { descriptors_to_add: v.descriptors_to_add + xs, ..v }),
                Err(e) => Err(e),
            },
            3 => match dec_packed_i32(f.value) {
                Ok(xs) => Ok(SpecCPublishedFile_UpdateContentDescriptors_Request { descriptors_to_remove: v.descriptors_to_remove + xs, ..v }),
                Err(e) => Err(e),
            },
            _ => Ok(v),
        }
    }

    pub open spec fn apply_fn() -> spec_fn(SpecCPublishedFile_UpdateContentDescriptors_Request, SpecField) -> Result<SpecCPublishedFile_UpdateContentDescriptors_Request, WireError> {
        |v: SpecCPublishedFile_UpdateContentDescriptors_Request, f: SpecField| Self::spec_apply(v, f)
    }

    /// The message `bytes` makes of `v`: its records applied in order, or the error
    /// that stops the reading.
    pub open spec fn spec_merge(v: SpecCPublishedFile_UpdateContentDescriptors_Request, bytes: Seq<u8>) -> Result<SpecCPublishedFile_UpdateContentDescriptors_Request, WireError> {
        let (w, stop) = merge_run(v, bytes, Self::apply_fn());
        match stop {
            None => Ok(w),
            Some(e) => Err(e),
        }
    }

    #[verifier::opaque]
    pub open spec fn spec_decode(bytes: Seq<u8>) -> Result<SpecCPublishedFile_UpdateContentDescriptors_Request, WireError> {
        Self::spec_merge(Self::spec_default(), bytes)
    }

    /// This message with one record applied to it, or, when the record is refused,
    /// the message unchanged and the reason.
    fn applied(self, f: &Field) -> (r: Result<Self, (Self, WireError)>)
        ensures
            match Self::spec_apply(self@, f@) {
                Ok(v) => r matches Ok(m) && m@ == v,
                Err(e) => r matches Err((m, x)) && x == e && m@ == self@,
            },
    {
        match f.number {
            1 => match read_fixed64(&f.value) {
                Ok(x) => Ok(Self { publishedfileid: Some(x), ..self }),
                Err(e) => Err((self, e)),
            },
            2 => match read_packed_i32(&f.value) {
                Ok(xs) => {
                    let mut m = self;
                    let ghost before = m.descriptors_to_add@;
                    let mut es = crate::enums_productinfo::EContentDescriptorID::from_values(&xs);
                    let ghost added = es@;
                    m.descriptors_to_add.append(&mut es);
                    assert(crate::enums_productinfo::EContentDescriptorID::values(m.descriptors_to_add@) =~= crate::enums_productinfo::EContentDescriptorID::values(before) + crate::enums_productinfo::EContentDescriptorID::values(added));
                    Ok(m)
                },
                Err(e) => Err((self, e)),
            },
            3 => match read_packed_i32(&f.value) {
                Ok(xs) => {
                    let mut m = self;
                    let ghost before = m.descriptors_to_remove@;
                    let mut es = crate::enums_productinfo::EContentDescriptorID::from_values(&xs);
                    let ghost added = es@;
                    m.descriptors_to_remove.append(&mut es);
                    assert(crate::enums_productinfo::EContentDescriptorID::values(m.descriptors_to_remove@) =~= crate::enums_productinfo::EContentDescriptorID::values(before) + crate::enums_productinfo::EContentDescriptorID::values(added));
                    Ok(m)
                },
                Err(e) => Err((self, e)),
            },
            _ => Ok(self),
        }
    }

    /// Reads the records `bytes` holds into this message, in order. When a record does
    /// not parse or is refused, the reading stops there: the message keeps what the
    /// records before it gave, and the error is returned.
    pub fn merge(&mut self, bytes: &[u8]) -> (r: Result<(), WireError>)
        ensures
            final(self)@ == merge_run(old(self)@, bytes@, Self::apply_fn()).0,
            r == match merge_run(old(self)@, bytes@, Self::apply_fn()).1 {
                None => Ok::<(), WireError>(()),
                Some(e) => Err::<(), WireError>(e),
            },
    {
        let ghost total = merge_run(self@, bytes@, Self::apply_fn());
        let mut cur = Self::default();
        std::mem::swap(&mut cur, self);
        let mut pos: usize = 0;
        assert(bytes@.skip(0) =~= bytes@);
        while pos < bytes.len()
            invariant
                pos <= bytes@.len(),
                total == merge_run(old(self)@, bytes@, Self::apply_fn()),
                merge_run(cur@, bytes@.skip(pos as int), Self::apply_fn()) == total,
            decreases bytes@.len() - pos,
        {
            let ghost s = bytes@.skip(pos as int);
            proof {
                lemma_merge_run_step(cur@, s, Self::apply_fn());
                lemma_parse_field_len(s);
            }
            match read_field(bytes, pos) {
                Ok((f, end)) => {
                    assert(bytes@.skip(end as int) =~= s.skip((end - pos) as int));
                    match cur.applied(&f) {
                        Ok(m) => {
                            cur = m;
                        },
                        Err((m, e)) => {
                            *self = m;
                            return Err(e);
                        },
                    }
                    pos = end;
                },
                Err(e) => {
                    *self = cur;
                    return Err(e);
                },
            }
        }
        assert(bytes@.skip(pos as int) =~= Seq::<u8>::empty());
        proof {
            lemma_merge_run_empty(cur@, Self::apply_fn());
        }
        *self = cur;
        Ok(())
    }

    /// Decodes a message from its encoding.
    pub fn decode(bytes: &[u8]) -> (r: Result<Self, WireError>)
        ensures
            match Self::spec_decode(bytes@) {
                Ok(v) => r matches Ok(m) && m@ == v,
                Err(e) => r matches Err(x) && x == e,
            },
    {
        proof {
            reveal(CPublishedFile_UpdateContentDescriptors_Request::spec_decode);
        }
        let mut m = Self::default();
        match m.merge(bytes) {
            Ok(()) => Ok(m),
            Err(e) => Err(e),
        }
    }

    /// The encoding of this message.
    pub fn encode_to_vec(&self) -> (r: Vec<u8>)
        ensures
            r@ == Self::spec_encode(self@),
    {
        let val_descriptors_to_add = crate::enums_productinfo::EContentDescriptorID::values_of(&self.descriptors_to_add);
        let val_descriptors_to_remove = crate::enums_productinfo::EContentDescriptorID::values_of(&self.descriptors_to_remove);
        let ghost v = self@;
        let mut out: Vec<u8> = Vec::new();
        let ghost p0 = Seq::<SpecField>::empty();
        put_opt_fixed64(&mut out, 1, self.publishedfileid);
        let ghost p1 = p0 + opt_fixed64(1, v.publishedfileid);
        proof {
            lemma_fields_bytes_concat(p0, opt_fixed64(1, v.publishedfileid));
        }
        put_rep_i32(&mut out, 2, &val_descriptors_to_add);
        let ghost p2 = p1 + rep_i32(2, v.descriptors_to_add);
        proof {
            lemma_fields_bytes_concat(p1, rep_i32(2, v.descriptors_to_add));
        }
        put_rep_i32(&mut out, 3, &val_descriptors_to_remove);
        let ghost p3 = p2 + rep_i32(3, v.descriptors_to_remove);
        proof {
            lemma_fields_bytes_concat(p2, rep_i32(3, v.descriptors_to_remove));
        }
        proof {
            reveal(CPublishedFile_UpdateContentDescriptors_Request::spec_encode);
        }
        assert(p3 == Self::spec_fields(v));
        out
    }

    /// Appends the encoding of this message to `out`.
    pub fn encode_raw(&self, out: &mut Vec<u8>)
        ensures
            final(out)@ == old(out)@ + Self::spec_encode(self@),
    {
        let mut b = self.encode_to_vec();
        out.append(&mut b);
    }

    /// The first `k` fields of `v`, the others as a fresh message has them.
    #[verifier::opaque]
    pub open spec fn spec_prefix(v: SpecCPublishedFile_UpdateContentDescriptors_Request, k: int) -> SpecCPublishedFile_UpdateContentDescriptors_Request {
        SpecCPublishedFile_UpdateContentDescriptors_Request {
            publishedfileid: if 1 <= k { v.publishedfileid } else { None },
            descriptors_to_add: if 2 <= k { v.descriptors_to_add } else { Seq::empty() },
            descriptors_to_remove: if 3 <= k { v.descriptors_to_remove } else { Seq::empty() },
        }
    }

    /// Reading field 1 back, after the fields before it.
    proof fn lemma_field_publishedfileid(v: SpecCPublishedFile_UpdateContentDescriptors_Request)
        ensures
            fold_fields(Self::spec_prefix(v, 0), opt_fixed64(1, v.publishedfileid), Self::apply_fn())
                == Ok::<SpecCPublishedFile_UpdateContentDescriptors_Request, WireError>(Self::spec_prefix(v, 1)),
    {
        reveal(CPublishedFile_UpdateContentDescriptors_Request::spec_prefix);
        reveal(opt_fixed64);
        let apply = Self::apply_fn();
        let s = Self::spec_prefix(v, 0);
        lemma_fold_opt(s, 1, match v.publishedfileid { Some(x) => Some(enc_fixed64(x)), None => None }, apply);
        if let Some(x) = v.publishedfileid {
            lemma_u64_roundtrip(x);
        }
        assert(SpecCPublishedFile_UpdateContentDescriptors_Request { publishedfileid: v.publishedfileid, ..s } == Self::spec_prefix(v, 1));
    }

    /// Reading field 2 back, after the fields before it.
    proof fn lemma_field_descriptors_to_add(v: SpecCPublishedFile_UpdateContentDescriptors_Request)
        ensures
            fold_fields(Self::spec_prefix(v, 1), rep_i32(2, v.descriptors_to_add), Self::apply_fn())
                == Ok::<SpecCPublishedFile_UpdateContentDescriptors_Request, WireError>(Self::spec_prefix(v, 2)),
    {
        reveal(CPublishedFile_UpdateContentDescriptors_Request::spec_prefix);
        reveal(rep_i32);
        let apply = Self::apply_fn();
        let s = Self::spec_prefix(v, 1);
        let l = rep_i32(2, v.descriptors_to_add);
        let xs = v.descriptors_to_add;
        let st = Seq::new((xs.len() + 1) as nat, |j: int| SpecCPublishedFile_UpdateContentDescriptors_Request { descriptors_to_add: xs.take(j), ..s });
        assert forall|j: int| 0 <= j < l.len() implies #[trigger] apply(st[j], l[j]) == Ok::<SpecCPublishedFile_UpdateContentDescriptors_Request, WireError>(st[j + 1]) by {
            lemma_i32_roundtrip(xs[j]);
            assert(xs.take(j) + seq![xs[j]] =~= xs.take(j + 1));
        }
        lemma_fold_chain(l, st, apply);
        assert(xs.take(0) =~= Seq::<i32>::empty());
        assert(xs.take(xs.len() as int) =~= xs);
        assert(st[0] == s);
        assert(st[xs.len() as int] == Self::spec_prefix(v, 2));
    }

    /// Reading field 3 back, after the fields before it.
    proof fn lemma_field_descriptors_to_remove(v: SpecCPublishedFile_UpdateContentDescriptors_Request)
        ensures
            fold_fields(Self::spec_prefix(v, 2), rep_i32(3, v.descriptors_to_remove), Self::apply_fn())
                == Ok::<SpecCPublishedFile_UpdateContentDescriptors_Request, WireError>(Self::spec_prefix(v, 3)),
    {
        reveal(CPublishedFile_UpdateContentDescriptors_Request::spec_prefix);
        reveal(rep_i32);
        let apply = Self::apply_fn();
        let s = Self::spec_prefix(v, 2);
        let l = rep_i32(3, v.descriptors_to_remove);
        let xs = v.descriptors_to_remove;
        let st = Seq::new((xs.len() + 1) as nat, |j: int| SpecCPublishedFile_UpdateContentDescriptors_Request { descriptors_to_remove: xs.take(j), ..s });
        assert forall|j: int| 0 <= j < l.len() implies #[trigger] apply(st[j], l[j]) == Ok::<SpecCPublishedFile_UpdateContentDescriptors_Request, WireError>(st[j + 1]) by {
            lemma_i32_roundtrip(xs[j]);
            assert(xs.take(j) + seq![xs[j]] =~= xs.take(j + 1));
        }
        lemma_fold_chain(l, st, apply);
        assert(xs.take(0) =~= Seq::<i32>::empty());
        assert(xs.take(xs.len() as int) =~= xs);
        assert(st[0] == s);
        assert(st[xs.len() as int] == Self::spec_prefix(v, 3));
    }

    /// Whether this message declares field number `n`.
    pub open spec fn declares(n: u32) -> bool {
        n == 1 || n == 2 || n == 3
    }

    /// A record with a number this message does not declare is passed over: well-formed
    /// bytes decode to the same message with such a record after them as without it.
    pub proof fn lemma_unknown_field(bytes: Seq<u8>, f: SpecField)
        requires
            parse_fields(bytes) is Ok,
            field_wf(f),
            !Self::declares(f.number),
        ensures
            Self::spec_decode(bytes + field_bytes(f)) == Self::spec_decode(bytes),
    {
        reveal(CPublishedFile_UpdateContentDescriptors_Request::spec_decode);
        lemma_parse_fields_append(bytes, f);
        let fs = parse_fields(bytes).unwrap();
        let apply = Self::apply_fn();
        lemma_fold_concat(Self::spec_default(), fs, seq![f], apply);
        assert(fs.push(f) =~= fs + seq![f]);
        if let Ok(w) = fold_fields(Self::spec_default(), fs, apply) {
            lemma_fold_single(w, f, apply);
        }
        lemma_merge_run_fold(Self::spec_default(), bytes, apply);
        lemma_merge_run_fold(Self::spec_default(), bytes + field_bytes(f), apply);
    }

    /// Decoding the encoding of a message gives the message back.
    pub proof fn lemma_decode_encode(v: SpecCPublishedFile_UpdateContentDescriptors_Request)
        requires
            Self::spec_encode(v).len() <= u64::MAX,
        ensures
            Self::spec_decode(Self::spec_encode(v)) == Ok::<SpecCPublishedFile_UpdateContentDescriptors_Request, WireError>(v),
    {
        let apply = Self::apply_fn();
        let d = Self::spec_default();
        let p0 = Seq::<SpecField>::empty();
        let l1 = opt_fixed64(1, v.publishedfileid);
        let p1 = p0 + l1;
        let l2 = rep_i32(2, v.descriptors_to_add);
        let p2 = p1 + l2;
        let l3 = rep_i32(3, v.descriptors_to_remove);
        let p3 = p2 + l3;
        assert(parse_fields(Self::spec_encode(v)) == Ok::<Seq<SpecField>, WireError>(p3)) by {
            reveal(CPublishedFile_UpdateContentDescriptors_Request::spec_encode);
            assert(numbers_ok(p0) && fields_wf(p0)) by {
                reveal(numbers_ok);
                reveal(fields_wf);
            }
            lemma_opt_fixed64_numbered(1, v.publishedfileid);
            lemma_fields_wf_concat(p0, l1);
            lemma_rep_i32_numbered(2, v.descriptors_to_add);
            lemma_fields_wf_concat(p1, l2);
            lemma_rep_i32_numbered(3, v.descriptors_to_remove);
            lemma_fields_wf_concat(p2, l3);
            assert(p3 == Self::spec_fields(v));
            lemma_fields_wf_from_len(p3);
            lemma_fields_roundtrip(p3);
        }
        assert(Self::spec_prefix(v, 0) == d) by {
            reveal(CPublishedFile_UpdateContentDescriptors_Request::spec_prefix);
        }
        lemma_fold_empty(d, apply);
        lemma_fold_concat(d, p0, l1, apply);
        Self::lemma_field_publishedfileid(v);
        lemma_fold_concat(d, p1, l2, apply);
        Self::lemma_field_descriptors_to_add(v);
        lemma_fold_concat(d, p2, l3, apply);
        Self::lemma_field_descriptors_to_remove(v);
        assert(Self::spec_prefix(v, 3) == v) by {
            reveal(CPublishedFile_UpdateContentDescriptors_Request::spec_prefix);
        }
        lemma_merge_run_fold(d, Self::spec_encode(v), apply);
        assert(Self::spec_decode(Self::spec_encode(v)) == Ok::<SpecCPublishedFile_UpdateContentDescriptors_Request, WireError>(v)) by {
            reveal(CPublishedFile_UpdateContentDescriptors_Request::spec_decode);
        }
    }
}

/// `CPublishedFile_UpdateContentDescriptors_Response`, as Valve's schema declares it.
#[derive(Debug, Clone, PartialEq)]
pub struct CPublishedFile_UpdateContentDescriptors_Response {
    /// Field 1.
    pub timestamp_updated: Option<u32>,
}

/// What a `CPublishedFile_UpdateContentDescriptors_Response` holds, as mathematical values.
#[verifier::ext_equal]
pub struct SpecCPublishedFile_UpdateContentDescriptors_Response {
    pub timestamp_updated: Option<u32>,
}

impl View for CPublishedFile_UpdateContentDescriptors_Response {
    type V = SpecCPublishedFile_UpdateContentDescriptors_Response;

    open spec fn view(&self) -> SpecCPublishedFile_UpdateContentDescriptors_Response {
        SpecCPublishedFile_UpdateContentDescriptors_Response {
            timestamp_updated: self.timestamp_updated,
        }
    }
}

impl Default for CPublishedFile_UpdateContentDescriptors_Response {
    fn default() -> (r: Self)
        ensures
            r@ == CPublishedFile_UpdateContentDescriptors_Response::spec_default(),
    {
        CPublishedFile_UpdateContentDescriptors_Response {
            timestamp_updated: None,
        }
    }
}

impl CPublishedFile_UpdateContentDescriptors_Response {
    pub open spec fn spec_default() -> SpecCPublishedFile_UpdateContentDescriptors_Response {
        SpecCPublishedFile_UpdateContentDescriptors_Response {
            timestamp_updated: None,
        }
    }

    /// The records a `CPublishedFile_UpdateContentDescriptors_Response` is written as, in field order.
    pub open spec fn spec_fields(v: SpecCPublishedFile_UpdateContentDescriptors_Response) -> Seq<SpecField> {
        Seq::<SpecField>::empty()
            + opt_u32(1, v.timestamp_updated)
    }

    #[verifier::opaque]
    pub open spec fn spec_encode(v: SpecCPublishedFile_UpdateContentDescriptors_Response) -> Seq<u8> {
        fields_bytes(Self::spec_fields(v))
    }

    /// What one record does to the message: a declared number sets or extends its
    /// field, any other number is left alone.
    pub open spec fn spec_apply(v: SpecCPublishedFile_UpdateContentDescriptors_Response, f: SpecField) -> Result<SpecCPublishedFile_UpdateContentDescriptors_Response, WireError> {
        match f.number {
            1 => match dec_u32(f.value) {
                Ok(x) => Ok(SpecCPublishedFile_UpdateContentDescriptors_Response { timestamp_updated: Some(x), ..v }),
                Err(e) => Err(e),
            },
            _ => Ok(v),
        }
    }

    pub open spec fn apply_fn() -> spec_fn(SpecCPublishedFile_UpdateContentDescriptors_Response, SpecField) -> Result<SpecCPublishedFile_UpdateContentDescriptors_Response, WireError> {
        |v: SpecCPublishedFile_UpdateContentDescriptors_Response, f: SpecField| Self::spec_apply(v, f)
    }

    /// The message `bytes` makes of `v`: its records applied in order, or the error
    /// that stops the reading.
    pub open spec fn spec_merge(v: SpecCPublishedFile_UpdateContentDescriptors_Response, bytes: Seq<u8>) -> Result<SpecCPublishedFile_UpdateContentDescriptors_Response, WireError> {
        let (w, stop) = merge_run(v, bytes, Self::apply_fn());
        match stop {
            None => Ok(w),
            Some(e) => Err(e),
        }
    }

    #[verifier::opaque]
    pub open spec fn spec_decode(bytes: Seq<u8>) -> Result<SpecCPublishedFile_UpdateContentDescriptors_Response, WireError> {
        Self::spec_merge(Self::spec_default(), bytes)
    }

    /// This message with one record applied to it, or, when the record is refused,
    /// the message unchanged and the reason.
    fn applied(self, f: &Field) -> (r: Result<Self, (Self, WireError)>)
        ensures
            match Self::spec_apply(self@, f@) {
                Ok(v) => r matches Ok(m) && m@ == v,
                Err(e) => r matches Err((m, x)) && x == e && m@ == self@,
            },
    {
        match f.number {
            1 => match read_u32(&f.value) {
                Ok(x) => Ok(Self { timestamp_updated: Some(x), ..self }),
                Err(e) => Err((self, e)),
            },
            _ => Ok(self),
        }
    }

    /// Reads the records `bytes` holds into this message, in order. When a record does
    /// not parse or is refused, the reading stops there: the message keeps what the
    /// records before it gave, and the error is returned.
    pub fn merge(&mut self, bytes: &[u8]) -> (r: Result<(), WireError>)
        ensures
            final(self)@ == merge_run(old(self)@, bytes@, Self::apply_fn()).0,
            r == match merge_run(old(self)@, bytes@, Self::apply_fn()).1 {
                None => Ok::<(), WireError>(()),
                Some(e) => Err::<(), WireError>(e),
            },
    {
        let ghost total = merge_run(self@, bytes@, Self::apply_fn());
        let mut cur = Self::default();
        std::mem::swap(&mut cur, self);
        let mut pos: usize = 0;
        assert(bytes@.skip(0) =~= bytes@);
        while pos < bytes.len()
            invariant
                pos <= bytes@.len(),
                total == merge_run(old(self)@, bytes@, Self::apply_fn()),
                merge_run(cur@, bytes@.skip(pos as int), Self::apply_fn()) == total,
            decreases bytes@.len() - pos,
        {
            let ghost s = bytes@.skip(pos as int);
            proof {
                lemma_merge_run_step(cur@, s, Self::apply_fn());
                lemma_parse_field_len(s);
            }
            match read_field(bytes, pos) {
                Ok((f, end)) => {
                    assert(bytes@.skip(end as int) =~= s.skip((end - pos) as int));
                    match cur.applied(&f) {
                        Ok(m) => {
                            cur = m;
                        },
                        Err((m, e)) => {
                            *self = m;
                            return Err(e);
                        },
                    }
                    pos = end;
                },
                Err(e) => {
                    *self = cur;
                    return Err(e);
                },
            }
        }
        assert(bytes@.skip(pos as int) =~= Seq::<u8>::empty());
        proof {
            lemma_merge_run_empty(cur@, Self::apply_fn());
        }
        *self = cur;
        Ok(())
    }

    /// Decodes a message from its encoding.
    pub fn decode(bytes: &[u8]) -> (r: Result<Self, WireError>)
        ensures
            match Self::spec_decode(bytes@) {
                Ok(v) => r matches Ok(m) && m@ == v,
                Err(e) => r matches Err(x) && x == e,
            },
    {
        proof {
            reveal(CPublishedFile_UpdateContentDescriptors_Response::spec_decode);
        }
        let mut m = Self::default();
        match m.merge(bytes) {
            Ok(()) => Ok(m),
            Err(e) => Err(e),
        }
    }

    /// The encoding of this message.
    pub fn encode_to_vec(&self) -> (r: Vec<u8>)
        ensures
            r@ == Self::spec_encode(self@),
    {
        let ghost v = self@;
        let mut out: Vec<u8> = Vec::new();
        let ghost p0 = Seq::<SpecField>::empty();
        put_opt_u32(&mut out, 1, self.timestamp_updated);
        let ghost p1 = p0 + opt_u32(1, v.timestamp_updated);
        proof {
            lemma_fields_bytes_concat(p0, opt_u32(1, v.timestamp_updated));
        }
        proof {
            reveal(CPublishedFile_UpdateContentDescriptors_Response::spec_encode);
        }
        assert(p1 == Self::spec_fields(v));
        out
    }

    /// Appends the encoding of this message to `out`.
    pub fn encode_raw(&self, out: &mut Vec<u8>)
        ensures
            final(out)@ == old(out)@ + Self::spec_encode(self@),
    {
        let mut b = self.encode_to_vec();
        out.append(&mut b);
    }

    /// The first `k` fields of `v`, the others as a fresh message has them.
    #[verifier::opaque]
    pub open spec fn spec_prefix(v: SpecCPublishedFile_UpdateContentDescriptors_Response, k: int) -> SpecCPublishedFile_UpdateContentDescriptors_Response {
        SpecCPublishedFile_UpdateContentDescriptors_Response {
            timestamp_updated: if 1 <= k { v.timestamp_updated } else { None },
        }
    }

    /// Reading field 1 back, after the fields before it.
    proof fn lemma_field_timestamp_updated(v: SpecCPublishedFile_UpdateContentDescriptors_Response)
        ensures
            fold_fields(Self::spec_prefix(v, 0), opt_u32(1, v.timestamp_updated), Self::apply_fn())
                == Ok::<SpecCPublishedFile_UpdateContentDescriptors_Response, WireError>(Self::spec_prefix(v, 1)),
    {
        reveal(CPublishedFile_UpdateContentDescriptors_Response::spec_prefix);
        reveal(opt_u32);
        let apply = Self::apply_fn();
        let s = Self::spec_prefix(v, 0);
        lemma_fold_opt(s, 1, match v.timestamp_updated { Some(x) => Some(enc_u32(x)), None => None }, apply);
        if let Some(x) = v.timestamp_updated {
            lemma_u32_roundtrip(x);
        }
        assert(SpecCPublishedFile_UpdateContentDescriptors_Response { timestamp_updated: v.timestamp_updated, ..s } == Self::spec_prefix(v, 1));
    }

    /// Whether this message declares field number `n`.
    pub open spec fn declares(n: u32) -> bool {
        n == 1
    }

    /// A record with a number this message does not declare is passed over: well-formed
    /// bytes decode to the same message with such a record after them as without it.
    pub proof fn lemma_unknown_field(bytes: Seq<u8>, f: SpecField)
        requires
            parse_fields(bytes) is Ok,
            field_wf(f),
            !Self::declares(f.number),
        ensures
            Self::spec_decode(bytes + field_bytes(f)) == Self::spec_decode(bytes),
    {
        reveal(CPublishedFile_UpdateContentDescriptors_Response::spec_decode);
        lemma_parse_fields_append(bytes, f);
        let fs = parse_fields(bytes).unwrap();
        let apply = Self::apply_fn();
        lemma_fold_concat(Self::spec_default(), fs, seq![f], apply);
        assert(fs.push(f) =~= fs + seq![f]);
        if let Ok(w) = fold_fields(Self::spec_default(), fs, apply) {
            lemma_fold_single(w, f, apply);
        }
        lemma_merge_run_fold(Self::spec_default(), bytes, apply);
        lemma_merge_run_fold(Self::spec_default(), bytes + field_bytes(f), apply);
    }

    /// Decoding the encoding of a message gives the message back.
    pub proof fn lemma_decode_encode(v: SpecCPublishedFile_UpdateContentDescriptors_Response)
        requires
            Self::spec_encode(v).len() <= u64::MAX,
        ensures
            Self::spec_decode(Self::spec_encode(v)) == Ok::<SpecCPublishedFile_UpdateContentDescriptors_Response, WireError>(v),
    {
        let apply = Self::apply_fn();
        let d = Self::spec_default();
        let p0 = Seq::<SpecField>::empty();
        let l1 = opt_u32(1, v.timestamp_updated);
        let p1 = p0 + l1;
        assert(parse_fields(Self::spec_encode(v)) == Ok::<Seq<SpecField>, WireError>(p1)) by {
            reveal(CPublishedFile_UpdateContentDescriptors_Response::spec_encode);
            assert(numbers_ok(p0) && fields_wf(p0)) by {
                reveal(numbers_ok);
                reveal(fields_wf);
            }
            lemma_opt_u32_numbered(1, v.timestamp_updated);
            lemma_fields_wf_concat(p0, l1);
            assert(p1 == Self::spec_fields(v));
            lemma_fields_wf_from_len(p1);
            lemma_fields_roundtrip(p1);
        }
        assert(Self::spec_prefix(v, 0) == d) by {
            reveal(CPublishedFile_UpdateContentDescriptors_Response::spec_prefix);
        }
        lemma_fold_empty(d, apply);
        lemma_fold_concat(d, p0, l1, apply);
        Self::lemma_field_timestamp_updated(v);
        assert(Self::spec_prefix(v, 1) == v) by {
            reveal(CPublishedFile_UpdateContentDescriptors_Response::spec_prefix);
        }
        lemma_merge_run_fold(d, Self::spec_encode(v), apply);
        assert(Self::spec_decode(Self::spec_encode(v)) == Ok::<SpecCPublishedFile_UpdateContentDescriptors_Response, WireError>(v)) by {
            reveal(CPublishedFile_UpdateContentDescriptors_Response::spec_decode);
        }
    }
}

/// `CPublishedFile_FileSubscribed_Notification`, as Valve's schema declares it.
#[derive(Debug, Clone, PartialEq)]
pub struct CPublishedFile_FileSubscribed_Notification {
    /// Field 1.
    pub published_file_id: Option<u64>,
    /// Field 2.
    pub app_id: Option<u32>,
    /// Field 3.
    pub file_hcontent: Option<u64>,
    /// Field 4.
    pub file_size: Option<u32>,
    /// Field 5.
    pub rtime_subscribed: Option<u32>,
    /// Field 6.
    pub is_depot_content: Option<bool>,
    /// Field 7.
    pub rtime_updated: Option<u32>,
    /// Field 9.
    pub revision: Option<crate::steammessages_publishedfile_steamclient::EPublishedFileRevision>,
    /// Field 8.
    pub revisions: Vec<crate::steammessages_publishedfile_steamclient::c_published_file_file_subscribed_notification::RevisionData>,
}

/// What a `CPublishedFile_FileSubscribed_Notification` holds, as mathematical values.
#[verifier::ext_equal]
pub struct SpecCPublishedFile_FileSubscribed_Notification {
    pub published_file_id: Option<u64>,
    pub app_id: Option<u32>,
    pub file_hcontent: Option<u64>,
    pub file_size: Option<u32>,
    pub rtime_subscribed: Option<u32>,
    pub is_depot_content: Option<bool>,
    pub rtime_updated: Option<u32>,
    pub revision: Option<i32>,
    pub revisions: Seq<crate::steammessages_publishedfile_steamclient::c_published_file_file_subscribed_notification::SpecRevisionData>,
}

impl View for CPublishedFile_FileSubscribed_Notification {
    type V = SpecCPublishedFile_FileSubscribed_Notification;

    open spec fn view(&self) -> SpecCPublishedFile_FileSubscribed_Notification {
        SpecCPublishedFile_FileSubscribed_Notification {
            published_file_id: self.published_file_id,
            app_id: self.app_id,
            file_hcontent: self.file_hcontent,
            file_size: self.file_size,
            rtime_subscribed: self.rtime_subscribed,
            is_depot_content: self.is_depot_content,
            rtime_updated: self.rtime_updated,
            revision: match self.revision { Some(e) => Some(e.0), None => None },
            revisions: crate::steammessages_publishedfile_steamclient::c_published_file_file_subscribed_notification::RevisionData::view_all(self.revisions@),
        }
    }
}

impl Default for CPublishedFile_FileSubscribed_Notification {
    fn default() -> (r: Self)
        ensures
            r@ == CPublishedFile_FileSubscribed_Notification::spec_default(),
    {
        CPublishedFile_FileSubscribed_Notification {
            published_file_id: None,
            app_id: None,
            file_hcontent: None,
            file_size: None,
            rtime_subscribed: None,
            is_depot_content: None,
            rtime_updated: None,
            revision: None,
            revisions: Vec::new(),
        }
    }
}

impl CPublishedFile_FileSubscribed_Notification {
    /// Field 9, or its schema default when absent.
    pub fn revision_or_default(&self) -> (r: crate::steammessages_publishedfile_steamclient::EPublishedFileRevision)
        ensures
            r == match self.revision {
                Some(e) => e,
                None => crate::steammessages_publishedfile_steamclient::EPublishedFileRevision(0),
            },
    {
        match self.revision {
            Some(e) => e,
            None => crate::steammessages_publishedfile_steamclient::EPublishedFileRevision::k_EPublishedFileRevision_Default(),
        }
    }

    pub open spec fn spec_default() -> SpecCPublishedFile_FileSubscribed_Notification {
        SpecCPublishedFile_FileSubscribed_Notification {
            published_file_id: None,
            app_id: None,
            file_hcontent: None,
            file_size: None,
            rtime_subscribed: None,
            is_depot_content: None,
            rtime_updated: None,
            revision: None,
            revisions: Seq::empty(),
        }
    }

    /// The records a `CPublishedFile_FileSubscribed_Notification` is written as, in field order.
    pub open spec fn spec_fields(v: SpecCPublishedFile_FileSubscribed_Notification) -> Seq<SpecField> {
        Seq::<SpecField>::empty()
            + opt_fixed64(1, v.published_file_id)
            + opt_u32(2, v.app_id)
            + opt_fixed64(3, v.file_hcontent)
            + opt_u32(4, v.file_size)
            + opt_u32(5, v.rtime_subscribed)
            + opt_bool(6, v.is_depot_content)
            + opt_u32(7, v.rtime_updated)
            + opt_i32(9, v.revision)
            + rep_bytes(8, crate::steammessages_publishedfile_steamclient::c_published_file_file_subscribed_notification::RevisionData::spec_encode_all(v.revisions))
    }

    #[verifier::opaque]
    pub open spec fn spec_encode(v: SpecCPublishedFile_FileSubscribed_Notification) -> Seq<u8> {
        fields_bytes(Self::spec_fields(v))
    }

    /// What one record does to the message: a declared number sets or extends its
    /// field, any other number is left alone.
    pub open spec fn spec_apply(v: SpecCPublishedFile_FileSubscribed_Notification, f: SpecField) -> Result<SpecCPublishedFile_FileSubscribed_Notification, WireError> {
        match f.number {
            1 => match dec_fixed64(f.value) {
                Ok(x) => Ok(SpecCPublishedFile_FileSubscribed_Notification { published_file_id: Some(x), ..v }),
                Err(e) => Err(e),
            },
            2 => match dec_u32(f.value) {
                Ok(x) => Ok(SpecCPublishedFile_FileSubscribed_Notification { app_id: Some(x), ..v }),
                Err(e) => Err(e),
            },
            3 => match dec_fixed64(f.value) {
                Ok(x) => Ok(SpecCPublishedFile_FileSubscribed_Notification { file_hcontent: Some(x), ..v }),
                Err(e) => Err(e),
            },
            4 => match dec_u32(f.value) {
                Ok(x) => Ok(SpecCPublishedFile_FileSubscribed_Notification { file_size: Some(x), ..v }),
                Err(e) => Err(e),
            },
            5 => match dec_u32(f.value) {
                Ok(x) => Ok(SpecCPublishedFile_FileSubscribed_Notification { rtime_subscribed: Some(x), ..v }),
                Err(e) => Err(e),
            },
            6 => match dec_bool(f.value) {
                Ok(x) => Ok(SpecCPublishedFile_FileSubscribed_Notification { is_depot_content: Some(x), ..v }),
                Err(e) => Err(e),
            },
            7 => match dec_u32(f.value) {
                Ok(x) => Ok(SpecCPublishedFile_FileSubscribed_Notification { rtime_updated: Some(x), ..v }),
                Err(e) => Err(e),
            },
            9 => match dec_i32(f.value) {
                Ok(x) => Ok(SpecCPublishedFile_FileSubscribed_Notification { revision: Some(x), ..v }),
                Err(e) => Err(e),
            },
            8 => match dec_bytes(f.value) {
                Ok(b) => match crate::steammessages_publishedfile_steamclient::c_published_file_file_subscribed_notification::RevisionData::spec_decode(b) {
                    Ok(m) => Ok(SpecCPublishedFile_FileSubscribed_Notification { revisions: v.revisions.push(m), ..v }),
                    Err(e) => Err(e),
                },
                Err(e) => Err(e),
            },
            _ => Ok(v),
        }
    }

    pub open spec fn apply_fn() -> spec_fn(SpecCPublishedFile_FileSubscribed_Notification, SpecField) -> Result<SpecCPublishedFile_FileSubscribed_Notification, WireError> {
        |v: SpecCPublishedFile_FileSubscribed_Notification, f: SpecField| Self::spec_apply(v, f)
    }

    /// The message `bytes` makes of `v`: its records applied in order, or the error
    /// that stops the reading.
    pub open spec fn spec_merge(v: SpecCPublishedFile_FileSubscribed_Notification, bytes: Seq<u8>) -> Result<SpecCPublishedFile_FileSubscribed_Notification, WireError> {
        let (w, stop) = merge_run(v, bytes, Self::apply_fn());
        match stop {
            None => Ok(w),
            Some(e) => Err(e),
        }
    }

    #[verifier::opaque]
    pub open spec fn spec_decode(bytes: Seq<u8>) -> Result<SpecCPublishedFile_FileSubscribed_Notification, WireError> {
        Self::spec_merge(Self::spec_default(), bytes)
    }

    /// This message with one record applied to it, or, when the record is refused,
    /// the message unchanged and the reason.
    fn applied(self, f: &Field) -> (r: Result<Self, (Self, WireError)>)
        ensures
            match Self::spec_apply(self@, f@) {
                Ok(v) => r matches Ok(m) && m@ == v,
                Err(e) => r matches Err((m, x)) && x == e && m@ == self@,
            },
    {
        if f.number <= 6 {
            self.applied_0(f)
        } else {
            self.applied_1(f)
        }
    }

    /// `applied`, for the records numbered up to 6.
    fn applied_0(self, f: &Field) -> (r: Result<Self, (Self, WireError)>)
        requires
            f.number <= 6,
        ensures
            match Self::spec_apply(self@, f@) {
                Ok(v) => r matches Ok(m) && m@ == v,
                Err(e) => r matches Err((m, x)) && x == e && m@ == self@,
            },
    {
        match f.number {
            1 => match read_fixed64(&f.value) {
                Ok(x) => Ok(Self { published_file_id: Some(x), ..self }),
                Err(e) => Err((self, e)),
            },
            2 => match read_u32(&f.value) {
                Ok(x) => Ok(Self { app_id: Some(x), ..self }),
                Err(e) => Err((self, e)),
            },
            3 => match read_fixed64(&f.value) {
                Ok(x) => Ok(Self { file_hcontent: Some(x), ..self }),
                Err(e) => Err((self, e)),
            },
            4 => match read_u32(&f.value) {
                Ok(x) => Ok(Self { file_size: Some(x), ..self }),
                Err(e) => Err((self, e)),
            },
            5 => match read_u32(&f.value) {
                Ok(x) => Ok(Self { rtime_subscribed: Some(x), ..self }),
                Err(e) => Err((self, e)),
            },
            6 => match read_bool(&f.value) {
                Ok(x) => Ok(Self { is_depot_content: Some(x), ..self }),
                Err(e) => Err((self, e)),
            },
            _ => Ok(self),
        }
    }

    /// `applied`, for the records numbered above 6.
    fn applied_1(self, f: &Field) -> (r: Result<Self, (Self, WireError)>)
        requires
            6 < f.number,
        ensures
            match Self::spec_apply(self@, f@) {
                Ok(v) => r matches Ok(m) && m@ == v,
                Err(e) => r matches Err((m, x)) && x == e && m@ == self@,
            },
    {
        match f.number {
            7 => match read_u32(&f.value) {
                Ok(x) => Ok(Self { rtime_updated: Some(x), ..self }),
                Err(e) => Err((self, e)),
            },
            8 => match read_payload(&f.value) {
                Ok(b) => match crate::steammessages_publishedfile_steamclient::c_published_file_file_subscribed_notification::RevisionData::decode(b) {
                    Ok(x) => {
                        let mut m = self;
                        let ghost before = m.revisions@;
                        m.revisions.push(x);
                        assert(crate::steammessages_publishedfile_steamclient::c_published_file_file_subscribed_notification::RevisionData::view_all(m.revisions@) =~= crate::steammessages_publishedfile_steamclient::c_published_file_file_subscribed_notification::RevisionData::view_all(before).push(x@));
                        Ok(m)
                    },
                    Err(e) => Err((self, e)),
                },
                Err(e) => Err((self, e)),
            },
            9 => match read_i32(&f.value) {
                Ok(x) => Ok(Self { revision: Some(crate::steammessages_publishedfile_steamclient::EPublishedFileRevision(x)), ..self }),
                Err(e) => Err((self, e)),
            },
            _ => Ok(self),
        }
    }

    /// Reads the records `bytes` holds into this message, in order. When a record does
    /// not parse or is refused, the reading stops there: the message keeps what the
    /// records before it gave, and the error is returned.
    pub fn merge(&mut self, bytes: &[u8]) -> (r: Result<(), WireError>)
        ensures
            final(self)@ == merge_run(old(self)@, bytes@, Self::apply_fn()).0,
            r == match merge_run(old(self)@, bytes@, Self::apply_fn()).1 {
                None => Ok::<(), WireError>(()),
                Some(e) => Err::<(), WireError>(e),
            },
    {
        let ghost total = merge_run(self@, bytes@, Self::apply_fn());
        let mut cur = Self::default();
        std::mem::swap(&mut cur, self);
        let mut pos: usize = 0;
        assert(bytes@.skip(0) =~= bytes@);
        while pos < bytes.len()
            invariant
                pos <= bytes@.len(),
                total == merge_run(old(self)@, bytes@, Self::apply_fn()),
                merge_run(cur@, bytes@.skip(pos as int), Self::apply_fn()) == total,
            decreases bytes@.len() - pos,
        {
            let ghost s = bytes@.skip(pos as int);
            proof {
                lemma_merge_run_step(cur@, s, Self::apply_fn());
                lemma_parse_field_len(s);
            }
            match read_field(bytes, pos) {
                Ok((f, end)) => {
                    assert(bytes@.skip(end as int) =~= s.skip((end - pos) as int));
                    match cur.applied(&f) {
                        Ok(m) => {
                            cur = m;
                        },
                        Err((m, e)) => {
                            *self = m;
                            return Err(e);
                        },
                    }
                    pos = end;
                },
                Err(e) => {
                    *self = cur;
                    return Err(e);
                },
            }
        }
        assert(bytes@.skip(pos as int) =~= Seq::<u8>::empty());
        proof {
            lemma_merge_run_empty(cur@, Self::apply_fn());
        }
        *self = cur;
        Ok(())
    }

    /// Decodes a message from its encoding.
    pub fn decode(bytes: &[u8]) -> (r: Result<Self, WireError>)
        ensures
            match Self::spec_decode(bytes@) {
                Ok(v) => r matches Ok(m) && m@ == v,
                Err(e) => r matches Err(x) && x == e,
            },
    {
        proof {
            reveal(CPublishedFile_FileSubscribed_Notification::spec_decode);
        }
        let mut m = Self::default();
        match m.merge(bytes) {
            Ok(()) => Ok(m),
            Err(e) => Err(e),
        }
    }

    /// The encoding of this message.
    pub fn encode_to_vec(&self) -> (r: Vec<u8>)
        ensures
            r@ == Self::spec_encode(self@),
    {
        let enc_revisions = crate::steammessages_publishedfile_steamclient::c_published_file_file_subscribed_notification::RevisionData::encode_all(&self.revisions);
        let ghost v = self@;
        let mut out: Vec<u8> = Vec::new();
        let ghost p0 = Seq::<SpecField>::empty();
        put_opt_fixed64(&mut out, 1, self.published_file_id);
        let ghost p1 = p0 + opt_fixed64(1, v.published_file_id);
        proof {
            lemma_fields_bytes_concat(p0, opt_fixed64(1, v.published_file_id));
        }
        put_opt_u32(&mut out, 2, self.app_id);
        let ghost p2 = p1 + opt_u32(2, v.app_id);
        proof {
            lemma_fields_bytes_concat(p1, opt_u32(2, v.app_id));
        }
        put_opt_fixed64(&mut out, 3, self.file_hcontent);
        let ghost p3 = p2 + opt_fixed64(3, v.file_hcontent);
        proof {
            lemma_fields_bytes_concat(p2, opt_fixed64(3, v.file_hcontent));
        }
        put_opt_u32(&mut out, 4, self.file_size);
        let ghost p4 = p3 + opt_u32(4, v.file_size);
        proof {
            lemma_fields_bytes_concat(p3, opt_u32(4, v.file_size));
        }
        put_opt_u32(&mut out, 5, self.rtime_subscribed);
        let ghost p5 = p4 + opt_u32(5, v.rtime_subscribed);
        proof {
            lemma_fields_bytes_concat(p4, opt_u32(5, v.rtime_subscribed));
        }
        put_opt_bool(&mut out, 6, self.is_depot_content);
        let ghost p6 = p5 + opt_bool(6, v.is_depot_content);
        proof {
            lemma_fields_bytes_concat(p5, opt_bool(6, v.is_depot_content));
        }
        put_opt_u32(&mut out, 7, self.rtime_updated);
        let ghost p7 = p6 + opt_u32(7, v.rtime_updated);
        proof {
            lemma_fields_bytes_concat(p6, opt_u32(7, v.rtime_updated));
        }
        put_opt_i32(&mut out, 9, match self.revision { Some(e) => Some(e.0), None => None });
        let ghost p8 = p7 + opt_i32(9, v.revision);
        proof {
            lemma_fields_bytes_concat(p7, opt_i32(9, v.revision));
        }
        put_rep_bytes(&mut out, 8, &enc_revisions);
        let ghost p9 = p8 + rep_bytes(8, crate::steammessages_publishedfile_steamclient::c_published_file_file_subscribed_notification::RevisionData::spec_encode_all(v.revisions));
        proof {
            lemma_fields_bytes_concat(p8, rep_bytes(8, crate::steammessages_publishedfile_steamclient::c_published_file_file_subscribed_notification::RevisionData::spec_encode_all(v.revisions)));
        }
        proof {
            reveal(CPublishedFile_FileSubscribed_Notification::spec_encode);
        }
        assert(p9 == Self::spec_fields(v));
        out
    }

    /// Appends the encoding of this message to `out`.
    pub fn encode_raw(&self, out: &mut Vec<u8>)
        ensures
            final(out)@ == old(out)@ + Self::spec_encode(self@),
    {
        let mut b = self.encode_to_vec();
        out.append(&mut b);
    }

    /// The first `k` fields of `v`, the others as a fresh message has them.
    #[verifier::opaque]
    pub open spec fn spec_prefix(v: SpecCPublishedFile_FileSubscribed_Notification, k: int) -> SpecCPublishedFile_FileSubscribed_Notification {
        SpecCPublishedFile_FileSubscribed_Notification {
            published_file_id: if 1 <= k { v.published_file_id } else { None },
            app_id: if 2 <= k { v.app_id } else { None },
            file_hcontent: if 3 <= k { v.file_hcontent } else { None },
            file_size: if 4 <= k { v.file_size } else { None },
            rtime_subscribed: if 5 <= k { v.rtime_subscribed } else { None },
            is_depot_content: if 6 <= k { v.is_depot_content } else { None },
            rtime_updated: if 7 <= k { v.rtime_updated } else { None },
            revision: if 8 <= k { v.revision } else { None },
            revisions: if 9 <= k { v.revisions } else { Seq::empty() },
        }
    }

    /// Reading field 1 back, after the fields before it.
    proof fn lemma_field_published_file_id(v: SpecCPublishedFile_FileSubscribed_Notification)
        ensures
            fold_fields(Self::spec_prefix(v, 0), opt_fixed64(1, v.published_file_id), Self::apply_fn())
                == Ok::<SpecCPublishedFile_FileSubscribed_Notification, WireError>(Self::spec_prefix(v, 1)),
    {
        reveal(CPublishedFile_FileSubscribed_Notification::spec_prefix);
        reveal(opt_fixed64);
        let apply = Self::apply_fn();
        let s = Self::spec_prefix(v, 0);
        lemma_fold_opt(s, 1, match v.published_file_id { Some(x) => Some(enc_fixed64(x)), None => None }, apply);
        if let Some(x) = v.published_file_id {
            lemma_u64_roundtrip(x);
        }
        assert(SpecCPublishedFile_FileSubscribed_Notification { published_file_id: v.published_file_id, ..s } == Self::spec_prefix(v, 1));
    }

    /// Reading field 2 back, after the fields before it.
    proof fn lemma_field_app_id(v: SpecCPublishedFile_FileSubscribed_Notification)
        ensures
            fold_fields(Self::spec_prefix(v, 1), opt_u32(2, v.app_id), Self::apply_fn())
                == Ok::<SpecCPublishedFile_FileSubscribed_Notification, WireError>(Self::spec_prefix(v, 2)),
    {
        reveal(CPublishedFile_FileSubscribed_Notification::spec_prefix);
        reveal(opt_u32);
        let apply = Self::apply_fn();
        let s = Self::spec_prefix(v, 1);
        lemma_fold_opt(s, 2, match v.app_id { Some(x) => Some(enc_u32(x)), None => None }, apply);
        if let Some(x) = v.app_id {
            lemma_u32_roundtrip(x);
        }
        assert(SpecCPublishedFile_FileSubscribed_Notification { app_id: v.app_id, ..s } == Self::spec_prefix(v, 2));
    }

    /// Reading field 3 back, after the fields before it.
    proof fn lemma_field_file_hcontent(v: SpecCPublishedFile_FileSubscribed_Notification)
        ensures
            fold_fields(Self::spec_prefix(v, 2), opt_fixed64(3, v.file_hcontent), Self::apply_fn())
                == Ok::<SpecCPublishedFile_FileSubscribed_Notification, WireError>(Self::spec_prefix(v, 3)),
    {
        reveal(CPublishedFile_FileSubscribed_Notification::spec_prefix);
        reveal(opt_fixed64);
        let apply = Self::apply_fn();
        let s = Self::spec_prefix(v, 2);
        lemma_fold_opt(s, 3, match v.file_hcontent { Some(x) => Some(enc_fixed64(x)), None => None }, apply);
        if let Some(x) = v.file_hcontent {
            lemma_u64_roundtrip(x);
        }
        assert(SpecCPublishedFile_FileSubscribed_Notification { file_hcontent: v.file_hcontent, ..s } == Self::spec_prefix(v, 3));
    }

    /// Reading field 4 back, after the fields before it.
    proof fn lemma_field_file_size(v: SpecCPublishedFile_FileSubscribed_Notification)
        ensures
            fold_fields(Self::spec_prefix(v, 3), opt_u32(4, v.file_size), Self::apply_fn())
                == Ok::<SpecCPublishedFile_FileSubscribed_Notification, WireError>(Self::spec_prefix(v, 4)),
    {
        reveal(CPublishedFile_FileSubscribed_Notification::spec_prefix);
        reveal(opt_u32);
        let apply = Self::apply_fn();
        let s = Self::spec_prefix(v, 3);
        lemma_fold_opt(s, 4, match v.file_size { Some(x) => Some(enc_u32(x)), None => None }, apply);
        if let Some(x) = v.file_size {
            lemma_u32_roundtrip(x);
        }
        assert(SpecCPublishedFile_FileSubscribed_Notification { file_size: v.file_size, ..s } == Self::spec_prefix(v, 4));
    }

    /// Reading field 5 back, after the fields before it.
    proof fn lemma_field_rtime_subscribed(v: SpecCPublishedFile_FileSubscribed_Notification)
        ensures
            fold_fields(Self::spec_prefix(v, 4), opt_u32(5, v.rtime_subscribed), Self::apply_fn())
                == Ok::<SpecCPublishedFile_FileSubscribed_Notification, WireError>(Self::spec_prefix(v, 5)),
    {
        reveal(CPublishedFile_FileSubscribed_Notification::spec_prefix);
        reveal(opt_u32);
        let apply = Self::apply_fn();
        let s = Self::spec_prefix(v, 4);
        lemma_fold_opt(s, 5, match v.rtime_subscribed { Some(x) => Some(enc_u32(x)), None => None }, apply);
        if let Some(x) = v.rtime_subscribed {
            lemma_u32_roundtrip(x);
        }
        assert(SpecCPublishedFile_FileSubscribed_Notification { rtime_subscribed: v.rtime_subscribed, ..s } == Self::spec_prefix(v, 5));
    }

    /// Reading field 6 back, after the fields before it.
    proof fn lemma_field_is_depot_content(v: SpecCPublishedFile_FileSubscribed_Notification)
        ensures
            fold_fields(Self::spec_prefix(v, 5), opt_bool(6, v.is_depot_content), Self::apply_fn())
                == Ok::<SpecCPublishedFile_FileSubscribed_Notification, WireError>(Self::spec_prefix(v, 6)),
    {
        reveal(CPublishedFile_FileSubscribed_Notification::spec_prefix);
        reveal(opt_bool);
        let apply = Self::apply_fn();
        let s = Self::spec_prefix(v, 5);
        lemma_fold_opt(s, 6, match v.is_depot_content { Some(x) => Some(enc_bool(x)), None => None }, apply);
        assert(SpecCPublishedFile_FileSubscribed_Notification { is_depot_content: v.is_depot_content, ..s } == Self::spec_prefix(v, 6));
    }

    /// Reading field 7 back, after the fields before it.
    proof fn lemma_field_rtime_updated(v: SpecCPublishedFile_FileSubscribed_Notification)
        ensures
            fold_fields(Self::spec_prefix(v, 6), opt_u32(7, v.rtime_updated), Self::apply_fn())
                == Ok::<SpecCPublishedFile_FileSubscribed_Notification, WireError>(Self::spec_prefix(v, 7)),
    {
        reveal(CPublishedFile_FileSubscribed_Notification::spec_prefix);
        reveal(opt_u32);
        let apply = Self::apply_fn();
        let s = Self::spec_prefix(v, 6);
        lemma_fold_opt(s, 7, match v.rtime_updated { Some(x) => Some(enc_u32(x)), None => None }, apply);
        if let Some(x) = v.rtime_updated {
            lemma_u32_roundtrip(x);
        }
        assert(SpecCPublishedFile_FileSubscribed_Notification { rtime_updated: v.rtime_updated, ..s } == Self::spec_prefix(v, 7));
    }

    /// Reading field 9 back, after the fields before it.
    proof fn lemma_field_revision(v: SpecCPublishedFile_FileSubscribed_Notification)
        ensures
            fold_fields(Self::spec_prefix(v, 7), opt_i32(9, v.revision), Self::apply_fn())
                == Ok::<SpecCPublishedFile_FileSubscribed_Notification, WireError>(Self::spec_prefix(v, 8)),
    {
        reveal(CPublishedFile_FileSubscribed_Notification::spec_prefix);
        reveal(opt_i32);
        let apply = Self::apply_fn();
        let s = Self::spec_prefix(v, 7);
        lemma_fold_opt(s, 9, match v.revision { Some(x) => Some(enc_i32(x)), None => None }, apply);
        if let Some(x) = v.revision {
            lemma_i32_roundtrip(x);
        }
        assert(SpecCPublishedFile_FileSubscribed_Notification { revision: v.revision, ..s } == Self::spec_prefix(v, 8));
    }

    /// Reading field 8 back, after the fields before it.
    proof fn lemma_field_revisions(v: SpecCPublishedFile_FileSubscribed_Notification)
        requires
            fields_wf(rep_bytes(8, crate::steammessages_publishedfile_steamclient::c_published_file_file_subscribed_notification::RevisionData::spec_encode_all(v.revisions))),
        ensures
            fold_fields(Self::spec_prefix(v, 8), rep_bytes(8, crate::steammessages_publishedfile_steamclient::c_published_file_file_subscribed_notification::RevisionData::spec_encode_all(v.revisions)), Self::apply_fn())
                == Ok::<SpecCPublishedFile_FileSubscribed_Notification, WireError>(Self::spec_prefix(v, 9)),
    {
        reveal(CPublishedFile_FileSubscribed_Notification::spec_prefix);
        reveal(rep_bytes);
        reveal(fields_wf);
        let apply = Self::apply_fn();
        let s = Self::spec_prefix(v, 8);
        let l = rep_bytes(8, crate::steammessages_publishedfile_steamclient::c_published_file_file_subscribed_notification::RevisionData::spec_encode_all(v.revisions));
        let xs = v.revisions;
        let st = Seq::new((xs.len() + 1) as nat, |j: int| SpecCPublishedFile_FileSubscribed_Notification { revisions: xs.take(j), ..s });
        assert forall|j: int| 0 <= j < l.len() implies #[trigger] apply(st[j], l[j]) == Ok::<SpecCPublishedFile_FileSubscribed_Notification, WireError>(st[j + 1]) by {
            assert(field_wf(l[j]));
            crate::steammessages_publishedfile_steamclient::c_published_file_file_subscribed_notification::RevisionData::lemma_decode_encode(xs[j]);
            assert(xs.take(j).push(xs[j]) =~= xs.take(j + 1));
        }
        lemma_fold_chain(l, st, apply);
        assert(xs.take(0) =~= Seq::<crate::steammessages_publishedfile_steamclient::c_published_file_file_subscribed_notification::SpecRevisionData>::empty());
        assert(xs.take(xs.len() as int) =~= xs);
        assert(st[0] == s);
        assert(st[xs.len() as int] == Self::spec_prefix(v, 9));
    }

    /// Whether this message declares field number `n`.
    pub open spec fn declares(n: u32) -> bool {
        n == 1 || n == 2 || n == 3 || n == 4 || n == 5 || n == 6 || n == 7 || n == 9 || n == 8
    }

    /// A record with a number this message does not declare is passed over: well-formed
    /// bytes decode to the same message with such a record after them as without it.
    pub proof fn lemma_unknown_field(bytes: Seq<u8>, f: SpecField)
        requires
            parse_fields(bytes) is Ok,
            field_wf(f),
            !Self::declares(f.number),
        ensures
            Self::spec_decode(bytes + field_bytes(f)) == Self::spec_decode(bytes),
    {
        reveal(CPublishedFile_FileSubscribed_Notification::spec_decode);
        lemma_parse_fields_append(bytes, f);
        let fs = parse_fields(bytes).unwrap();
        let apply = Self::apply_fn();
        lemma_fold_concat(Self::spec_default(), fs, seq![f], apply);
        assert(fs.push(f) =~= fs + seq![f]);
        if let Ok(w) = fold_fields(Self::spec_default(), fs, apply) {
            lemma_fold_single(w, f, apply);
        }
        lemma_merge_run_fold(Self::spec_default(), bytes, apply);
        lemma_merge_run_fold(Self::spec_default(), bytes + field_bytes(f), apply);
    }

    /// Decoding the encoding of a message gives the message back.
    pub proof fn lemma_decode_encode(v: SpecCPublishedFile_FileSubscribed_Notification)
        requires
            Self::spec_encode(v).len() <= u64::MAX,
        ensures
            Self::spec_decode(Self::spec_encode(v)) == Ok::<SpecCPublishedFile_FileSubscribed_Notification, WireError>(v),
    {
        let apply = Self::apply_fn();
        let d = Self::spec_default();
        let p0 = Seq::<SpecField>::empty();
        let l1 = opt_fixed64(1, v.published_file_id);
        let p1 = p0 + l1;
        let l2 = opt_u32(2, v.app_id);
        let p2 = p1 + l2;
        let l3 = opt_fixed64(3, v.file_hcontent);
        let p3 = p2 + l3;
        let l4 = opt_u32(4, v.file_size);
        let p4 = p3 + l4;
        let l5 = opt_u32(5, v.rtime_subscribed);
        let p5 = p4 + l5;
        let l6 = opt_bool(6, v.is_depot_content);
        let p6 = p5 + l6;
        let l7 = opt_u32(7, v.rtime_updated);
        let p7 = p6 + l7;
        let l8 = opt_i32(9, v.revision);
        let p8 = p7 + l8;
        let l9 = rep_bytes(8, crate::steammessages_publishedfile_steamclient::c_published_file_file_subscribed_notification::RevisionData::spec_encode_all(v.revisions));
        let p9 = p8 + l9;
        assert(parse_fields(Self::spec_encode(v)) == Ok::<Seq<SpecField>, WireError>(p9) && fields_wf(l9)) by {
            reveal(CPublishedFile_FileSubscribed_Notification::spec_encode);
            assert(numbers_ok(p0) && fields_wf(p0)) by {
                reveal(numbers_ok);
                reveal(fields_wf);
            }
            lemma_opt_fixed64_numbered(1, v.published_file_id);
            lemma_fields_wf_concat(p0, l1);
            lemma_opt_u32_numbered(2, v.app_id);
            lemma_fields_wf_concat(p1, l2);
            lemma_opt_fixed64_numbered(3, v.file_hcontent);
            lemma_fields_wf_concat(p2, l3);
            lemma_opt_u32_numbered(4, v.file_size);
            lemma_fields_wf_concat(p3, l4);
            lemma_opt_u32_numbered(5, v.rtime_subscribed);
            lemma_fields_wf_concat(p4, l5);
            lemma_opt_bool_numbered(6, v.is_depot_content);
            lemma_fields_wf_concat(p5, l6);
            lemma_opt_u32_numbered(7, v.rtime_updated);
            lemma_fields_wf_concat(p6, l7);
            lemma_opt_i32_numbered(9, v.revision);
            lemma_fields_wf_concat(p7, l8);
            lemma_rep_bytes_numbered(8, crate::steammessages_publishedfile_steamclient::c_published_file_file_subscribed_notification::RevisionData::spec_encode_all(v.revisions));
            lemma_fields_wf_concat(p8, l9);
            assert(p9 == Self::spec_fields(v));
            lemma_fields_wf_from_len(p9);
            lemma_fields_roundtrip(p9);
        }
        assert(Self::spec_prefix(v, 0) == d) by {
            reveal(CPublishedFile_FileSubscribed_Notification::spec_prefix);
        }
        lemma_fold_empty(d, apply);
        lemma_fold_concat(d, p0, l1, apply);
        Self::lemma_field_published_file_id(v);
        lemma_fold_concat(d, p1, l2, apply);
        Self::lemma_field_app_id(v);
        lemma_fold_concat(d, p2, l3, apply);
        Self::lemma_field_file_hcontent(v);
        lemma_fold_concat(d, p3, l4, apply);
        Self::lemma_field_file_size(v);
        lemma_fold_concat(d, p4, l5, apply);
        Self::lemma_field_rtime_subscribed(v);
        lemma_fold_concat(d, p5, l6, apply);
        Self::lemma_field_is_depot_content(v);
        lemma_fold_concat(d, p6, l7, apply);
        Self::lemma_field_rtime_updated(v);
        lemma_fold_concat(d, p7, l8, apply);
        Self::lemma_field_revision(v);
        lemma_fold_concat(d, p8, l9, apply);
        Self::lemma_field_revisions(v);
        assert(Self::spec_prefix(v, 9) == v) by {
            reveal(CPublishedFile_FileSubscribed_Notification::spec_prefix);
        }
        lemma_merge_run_fold(d, Self::spec_encode(v), apply);
        assert(Self::spec_decode(Self::spec_encode(v)) == Ok::<SpecCPublishedFile_FileSubscribed_Notification, WireError>(v)) by {
            reveal(CPublishedFile_FileSubscribed_Notification::spec_decode);
        }
    }
}

/// `CPublishedFile_FileUnsubscribed_Notification`, as Valve's schema declares it.
#[derive(Debug, Clone, PartialEq)]
pub struct CPublishedFile_FileUnsubscribed_Notification {
    /// Field 1.
    pub published_file_id: Option<u64>,
    /// Field 2.
    pub app_id: Option<u32>,
}

/// What a `CPublishedFile_FileUnsubscribed_Notification` holds, as mathematical values.
#[verifier::ext_equal]
pub struct SpecCPublishedFile_FileUnsubscribed_Notification {
    pub published_file_id: Option<u64>,
    pub app_id: Option<u32>,
}

impl View for CPublishedFile_FileUnsubscribed_Notification {
    type V = SpecCPublishedFile_FileUnsubscribed_Notification;

    open spec fn view(&self) -> SpecCPublishedFile_FileUnsubscribed_Notification {
        SpecCPublishedFile_FileUnsubscribed_Notification {
            published_file_id: self.published_file_id,
            app_id: self.app_id,
        }
    }
}

impl Default for CPublishedFile_FileUnsubscribed_Notification {
    fn default() -> (r: Self)
        ensures
            r@ == CPublishedFile_FileUnsubscribed_Notification::spec_default(),
    {
        CPublishedFile_FileUnsubscribed_Notification {
            published_file_id: None,
            app_id: None,
        }
    }
}

impl CPublishedFile_FileUnsubscribed_Notification {
    pub open spec fn spec_default() -> SpecCPublishedFile_FileUnsubscribed_Notification {
        SpecCPublishedFile_FileUnsubscribed_Notification {
            published_file_id: None,
            app_id: None,
        }
    }

    /// The records a `CPublishedFile_FileUnsubscribed_Notification` is written as, in field order.
    pub open spec fn spec_fields(v: SpecCPublishedFile_FileUnsubscribed_Notification) -> Seq<SpecField> {
        Seq::<SpecField>::empty()
            + opt_fixed64(1, v.published_file_id)
            + opt_u32(2, v.app_id)
    }

    #[verifier::opaque]
    pub open spec fn spec_encode(v: SpecCPublishedFile_FileUnsubscribed_Notification) -> Seq<u8> {
        fields_bytes(Self::spec_fields(v))
    }

    /// What one record does to the message: a declared number sets or extends its
    /// field, any other number is left alone.
    pub open spec fn spec_apply(v: SpecCPublishedFile_FileUnsubscribed_Notification, f: SpecField) -> Result<SpecCPublishedFile_FileUnsubscribed_Notification, WireError> {
        match f.number {
            1 => match dec_fixed64(f.value) {
                Ok(x) => Ok(SpecCPublishedFile_FileUnsubscribed_Notification { published_file_id: Some(x), ..v }),
                Err(e) => Err(e),
            },
            2 => match dec_u32(f.value) {
                Ok(x) => Ok(SpecCPublishedFile_FileUnsubscribed_Notification { app_id: Some(x), ..v }),
                Err(e) => Err(e),
            },
            _ => Ok(v),
        }
    }

    pub open spec fn apply_fn() -> spec_fn(SpecCPublishedFile_FileUnsubscribed_Notification, SpecField) -> Result<SpecCPublishedFile_FileUnsubscribed_Notification, WireError> {
        |v: SpecCPublishedFile_FileUnsubscribed_Notification, f: SpecField| Self::spec_apply(v, f)
    }

    /// The message `bytes` makes of `v`: its records applied in order, or the error
    /// that stops the reading.
    pub open spec fn spec_merge(v: SpecCPublishedFile_FileUnsubscribed_Notification, bytes: Seq<u8>) -> Result<SpecCPublishedFile_FileUnsubscribed_Notification, WireError> {
        let (w, stop) = merge_run(v, bytes, Self::apply_fn());
        match stop {
            None => Ok(w),
            Some(e) => Err(e),
        }
    }

    #[verifier::opaque]
    pub open spec fn spec_decode(bytes: Seq<u8>) -> Result<SpecCPublishedFile_FileUnsubscribed_Notification, WireError> {
        Self::spec_merge(Self::spec_default(), bytes)
    }

    /// This message with one record applied to it, or, when the record is refused,
    /// the message unchanged and the reason.
    fn applied(self, f: &Field) -> (r: Result<Self, (Self, WireError)>)
        ensures
            match Self::spec_apply(self@, f@) {
                Ok(v) => r matches Ok(m) && m@ == v,
                Err(e) => r matches Err((m, x)) && x == e && m@ == self@,
            },
    {
        match f.number {
            1 => match read_fixed64(&f.value) {
                Ok(x) => Ok(Self { published_file_id: Some(x), ..self }),
                Err(e) => Err((self, e)),
            },
            2 => match read_u32(&f.value) {
                Ok(x) => Ok(Self { app_id: Some(x), ..self }),
                Err(e) => Err((self, e)),
            },
            _ => Ok(self),
        }
    }

    /// Reads the records `bytes` holds into this message, in order. When a record does
    /// not parse or is refused, the reading stops there: the message keeps what the
    /// records before it gave, and the error is returned.
    pub fn merge(&mut self, bytes: &[u8]) -> (r: Result<(), WireError>)
        ensures
            final(self)@ == merge_run(old(self)@, bytes@, Self::apply_fn()).0,
            r == match merge_run(old(self)@, bytes@, Self::apply_fn()).1 {
                None => Ok::<(), WireError>(()),
                Some(e) => Err::<(), WireError>(e),
            },
    {
        let ghost total = merge_run(self@, bytes@, Self::apply_fn());
        let mut cur = Self::default();
        std::mem::swap(&mut cur, self);
        let mut pos: usize = 0;
        assert(bytes@.skip(0) =~= bytes@);
        while pos < bytes.len()
            invariant
                pos <= bytes@.len(),
                total == merge_run(old(self)@, bytes@, Self::apply_fn()),
                merge_run(cur@, bytes@.skip(pos as int), Self::apply_fn()) == total,
            decreases bytes@.len() - pos,
        {
            let ghost s = bytes@.skip(pos as int);
            proof {
                lemma_merge_run_step(cur@, s, Self::apply_fn());
                lemma_parse_field_len(s);
            }
            match read_field(bytes, pos) {
                Ok((f, end)) => {
                    assert(bytes@.skip(end as int) =~= s.skip((end - pos) as int));
                    match cur.applied(&f) {
                        Ok(m) => {
                            cur = m;
                        },
                        Err((m, e)) => {
                            *self = m;
                            return Err(e);
                        },
                    }
                    pos = end;
                },
                Err(e) => {
                    *self = cur;
                    return Err(e);
                },
            }
        }
        assert(bytes@.skip(pos as int) =~= Seq::<u8>::empty());
        proof {
            lemma_merge_run_empty(cur@, Self::apply_fn());
        }
        *self = cur;
        Ok(())
    }

    /// Decodes a message from its encoding.
    pub fn decode(bytes: &[u8]) -> (r: Result<Self, WireError>)
        ensures
            match Self::spec_decode(bytes@) {
                Ok(v) => r matches Ok(m) && m@ == v,
                Err(e) => r matches Err(x) && x == e,
            },
    {
        proof {
            reveal(CPublishedFile_FileUnsubscribed_Notification::spec_decode);
        }
        let mut m = Self::default();
        match m.merge(bytes) {
            Ok(()) => Ok(m),
            Err(e) => Err(e),
        }
    }

    /// The encoding of this message.
    pub fn encode_to_vec(&self) -> (r: Vec<u8>)
        ensures
            r@ == Self::spec_encode(self@),
    {
        let ghost v = self@;
        let mut out: Vec<u8> = Vec::new();
        let ghost p0 = Seq::<SpecField>::empty();
        put_opt_fixed64(&mut out, 1, self.published_file_id);
        let ghost p1 = p0 + opt_fixed64(1, v.published_file_id);
        proof {
            lemma_fields_bytes_concat(p0, opt_fixed64(1, v.published_file_id));
        }
        put_opt_u32(&mut out, 2, self.app_id);
        let ghost p2 = p1 + opt_u32(2, v.app_id);
        proof {
            lemma_fields_bytes_concat(p1, opt_u32(2, v.app_id));
        }
        proof {
            reveal(CPublishedFile_FileUnsubscribed_Notification::spec_encode);
        }
        assert(p2 == Self::spec_fields(v));
        out
    }

    /// Appends the encoding of this message to `out`.
    pub fn encode_raw(&self, out: &mut Vec<u8>)
        ensures
            final(out)@ == old(out)@ + Self::spec_encode(self@),
    {
        let mut b = self.encode_to_vec();
        out.append(&mut b);
    }

    /// The first `k` fields of `v`, the others as a fresh message has them.
    #[verifier::opaque]
    pub open spec fn spec_prefix(v: SpecCPublishedFile_FileUnsubscribed_Notification, k: int) -> SpecCPublishedFile_FileUnsubscribed_Notification {
        SpecCPublishedFile_FileUnsubscribed_Notification {
            published_file_id: if 1 <= k { v.published_file_id } else { None },
            app_id: if 2 <= k { v.app_id } else { None },
        }
    }

    /// Reading field 1 back, after the fields before it.
    proof fn lemma_field_published_file_id(v: SpecCPublishedFile_FileUnsubscribed_Notification)
        ensures
            fold_fields(Self::spec_prefix(v, 0), opt_fixed64(1, v.published_file_id), Self::apply_fn())
                == Ok::<SpecCPublishedFile_FileUnsubscribed_Notification, WireError>(Self::spec_prefix(v, 1)),
    {
        reveal(CPublishedFile_FileUnsubscribed_Notification::spec_prefix);
        reveal(opt_fixed64);
        let apply = Self::apply_fn();
        let s = Self::spec_prefix(v, 0);
        lemma_fold_opt(s, 1, match v.published_file_id { Some(x) => Some(enc_fixed64(x)), None => None }, apply);
        if let Some(x) = v.published_file_id {
            lemma_u64_roundtrip(x);
        }
        assert(SpecCPublishedFile_FileUnsubscribed_Notification { published_file_id: v.published_file_id, ..s } == Self::spec_prefix(v, 1));
    }

    /// Reading field 2 back, after the fields before it.
    proof fn lemma_field_app_id(v: SpecCPublishedFile_FileUnsubscribed_Notification)
        ensures
            fold_fields(Self::spec_prefix(v, 1), opt_u32(2, v.app_id), Self::apply_fn())
                == Ok::<SpecCPublishedFile_FileUnsubscribed_Notification, WireError>(Self::spec_prefix(v, 2)),
    {
        reveal(CPublishedFile_FileUnsubscribed_Notification::spec_prefix);
        reveal(opt_u32);
        let apply = Self::apply_fn();
        let s = Self::spec_prefix(v, 1);
        lemma_fold_opt(s, 2, match v.app_id { Some(x) => Some(enc_u32(x)), None => None }, apply);
        if let Some(x) = v.app_id {
            lemma_u32_roundtrip(x);
        }
        assert(SpecCPublishedFile_FileUnsubscribed_Notification { app_id: v.app_id, ..s } == Self::spec_prefix(v, 2));
    }

    /// Whether this message declares field number `n`.
    pub open spec fn declares(n: u32) -> bool {
        n == 1 || n == 2
    }

    /// A record with a number this message does not declare is passed over: well-formed
    /// bytes decode to the same message with such a record after them as without it.
    pub proof fn lemma_unknown_field(bytes: Seq<u8>, f: SpecField)
        requires
            parse_fields(bytes) is Ok,
            field_wf(f),
            !Self::declares(f.number),
        ensures
            Self::spec_decode(bytes + field_bytes(f)) == Self::spec_decode(bytes),
    {
        reveal(CPublishedFile_FileUnsubscribed_Notification::spec_decode);
        lemma_parse_fields_append(bytes, f);
        let fs = parse_fields(bytes).unwrap();
        let apply = Self::apply_fn();
        lemma_fold_concat(Self::spec_default(), fs, seq![f], apply);
        assert(fs.push(f) =~= fs + seq![f]);
        if let Ok(w) = fold_fields(Self::spec_default(), fs, apply) {
            lemma_fold_single(w, f, apply);
        }
        lemma_merge_run_fold(Self::spec_default(), bytes, apply);
        lemma_merge_run_fold(Self::spec_default(), bytes + field_bytes(f), apply);
    }

    /// Decoding the encoding of a message gives the message back.
    pub proof fn lemma_decode_encode(v: SpecCPublishedFile_FileUnsubscribed_Notification)
        requires
            Self::spec_encode(v).len() <= u64::MAX,
        ensures
            Self::spec_decode(Self::spec_encode(v)) == Ok::<SpecCPublishedFile_FileUnsubscribed_Notification, WireError>(v),
    {
        let apply = Self::apply_fn();
        let d = Self::spec_default();
        let p0 = Seq::<SpecField>::empty();
        let l1 = opt_fixed64(1, v.published_file_id);
        let p1 = p0 + l1;
        let l2 = opt_u32(2, v.app_id);
        let p2 = p1 + l2;
        assert(parse_fields(Self::spec_encode(v)) == Ok::<Seq<SpecField>, WireError>(p2)) by {
            reveal(CPublishedFile_FileUnsubscribed_Notification::spec_encode);
            assert(numbers_ok(p0) && fields_wf(p0)) by {
                reveal(numbers_ok);
                reveal(fields_wf);
            }
            lemma_opt_fixed64_numbered(1, v.published_file_id);
            lemma_fields_wf_concat(p0, l1);
            lemma_opt_u32_numbered(2, v.app_id);
            lemma_fields_wf_concat(p1, l2);
            assert(p2 == Self::spec_fields(v));
            lemma_fields_wf_from_len(p2);
            lemma_fields_roundtrip(p2);
        }
        assert(Self::spec_prefix(v, 0) == d) by {
            reveal(CPublishedFile_FileUnsubscribed_Notification::spec_prefix);
        }
        lemma_fold_empty(d, apply);
        lemma_fold_concat(d, p0, l1, apply);
        Self::lemma_field_published_file_id(v);
        lemma_fold_concat(d, p1, l2, apply);
        Self::lemma_field_app_id(v);
        assert(Self::spec_prefix(v, 2) == v) by {
            reveal(CPublishedFile_FileUnsubscribed_Notification::spec_prefix);
        }
        lemma_merge_run_fold(d, Self::spec_encode(v), apply);
        assert(Self::spec_decode(Self::spec_encode(v)) == Ok::<SpecCPublishedFile_FileUnsubscribed_Notification, WireError>(v)) by {
            reveal(CPublishedFile_FileUnsubscribed_Notification::spec_decode);
        }
    }
}

/// `CPublishedFile_FileDeleted_Client_Notification`, as Valve's schema declares it.
#[derive(Debug, Clone, PartialEq)]
pub struct CPublishedFile_FileDeleted_Client_Notification {
    /// Field 1.
    pub published_file_id: Option<u64>,
    /// Field 2.
    pub app_id: Option<u32>,
}

/// What a `CPublishedFile_FileDeleted_Client_Notification` holds, as mathematical values.
#[verifier::ext_equal]
pub struct SpecCPublishedFile_FileDeleted_Client_Notification {
    pub published_file_id: Option<u64>,
    pub app_id: Option<u32>,
}

impl View for CPublishedFile_FileDeleted_Client_Notification {
    type V = SpecCPublishedFile_FileDeleted_Client_Notification;

    open spec fn view(&self) -> SpecCPublishedFile_FileDeleted_Client_Notification {
        SpecCPublishedFile_FileDeleted_Client_Notification {
            published_file_id: self.published_file_id,
            app_id: self.app_id,
        }
    }
}

impl Default for CPublishedFile_FileDeleted_Client_Notification {
    fn default() -> (r: Self)
        ensures
            r@ == CPublishedFile_FileDeleted_Client_Notification::spec_default(),
    {
        CPublishedFile_FileDeleted_Client_Notification {
            published_file_id: None,
            app_id: None,
        }
    }
}

impl CPublishedFile_FileDeleted_Client_Notification {
    pub open spec fn spec_default() -> SpecCPublishedFile_FileDeleted_Client_Notification {
        SpecCPublishedFile_FileDeleted_Client_Notification {
            published_file_id: None,
            app_id: None,
        }
    }

    /// The records a `CPublishedFile_FileDeleted_Client_Notification` is written as, in field order.
    pub open spec fn spec_fields(v: SpecCPublishedFile_FileDeleted_Client_Notification) -> Seq<SpecField> {
        Seq::<SpecField>::empty()
            + opt_fixed64(1, v.published_file_id)
            + opt_u32(2, v.app_id)
    }

    #[verifier::opaque]
    pub open spec fn spec_encode(v: SpecCPublishedFile_FileDeleted_Client_Notification) -> Seq<u8> {
        fields_bytes(Self::spec_fields(v))
    }

    /// What one record does to the message: a declared number sets or extends its
    /// field, any other number is left alone.
    pub open spec fn spec_apply(v: SpecCPublishedFile_FileDeleted_Client_Notification, f: SpecField) -> Result<SpecCPublishedFile_FileDeleted_Client_Notification, WireError> {
        match f.number {
            1 => match dec_fixed64(f.value) {
                Ok(x) => Ok(SpecCPublishedFile_FileDeleted_Client_Notification { published_file_id: Some(x), ..v }),
                Err(e) => Err(e),
            },
            2 => match dec_u32(f.value) {
                Ok(x) => Ok(SpecCPublishedFile_FileDeleted_Client_Notification { app_id: Some(x), ..v }),
                Err(e) => Err(e),
            },
            _ => Ok(v),
        }
    }

    pub open spec fn apply_fn() -> spec_fn(SpecCPublishedFile_FileDeleted_Client_Notification, SpecField) -> Result<SpecCPublishedFile_FileDeleted_Client_Notification, WireError> {
        |v: SpecCPublishedFile_FileDeleted_Client_Notification, f: SpecField| Self::spec_apply(v, f)
    }

    /// The message `bytes` makes of `v`: its records applied in order, or the error
    /// that stops the reading.
    pub open spec fn spec_merge(v: SpecCPublishedFile_FileDeleted_Client_Notification, bytes: Seq<u8>) -> Result<SpecCPublishedFile_FileDeleted_Client_Notification, WireError> {
        let (w, stop) = merge_run(v, bytes, Self::apply_fn());
        match stop {
            None => Ok(w),
            Some(e) => Err(e),
        }
    }

    #[verifier::opaque]
    pub open spec fn spec_decode(bytes: Seq<u8>) -> Result<SpecCPublishedFile_FileDeleted_Client_Notification, WireError> {
        Self::spec_merge(Self::spec_default(), bytes)
    }

    /// This message with one record applied to it, or, when the record is refused,
    /// the message unchanged and the reason.
    fn applied(self, f: &Field) -> (r: Result<Self, (Self, WireError)>)
        ensures
            match Self::spec_apply(self@, f@) {
                Ok(v) => r matches Ok(m) && m@ == v,
                Err(e) => r matches Err((m, x)) && x == e && m@ == self@,
            },
    {
        match f.number {
            1 => match read_fixed64(&f.value) {
                Ok(x) => Ok(Self { published_file_id: Some(x), ..self }),
                Err(e) => Err((self, e)),
            },
            2 => match read_u32(&f.value) {
                Ok(x) => Ok(Self { app_id: Some(x), ..self }),
                Err(e) => Err((self, e)),
            },
            _ => Ok(self),
        }
    }

    /// Reads the records `bytes` holds into this message, in order. When a record does
    /// not parse or is refused, the reading stops there: the message keeps what the
    /// records before it gave, and the error is returned.
    pub fn merge(&mut self, bytes: &[u8]) -> (r: Result<(), WireError>)
        ensures
            final(self)@ == merge_run(old(self)@, bytes@, Self::apply_fn()).0,
            r == match merge_run(old(self)@, bytes@, Self::apply_fn()).1 {
                None => Ok::<(), WireError>(()),
                Some(e) => Err::<(), WireError>(e),
            },
    {
        let ghost total = merge_run(self@, bytes@, Self::apply_fn());
        let mut cur = Self::default();
        std::mem::swap(&mut cur, self);
        let mut pos: usize = 0;
        assert(bytes@.skip(0) =~= bytes@);
        while pos < bytes.len()
            invariant
                pos <= bytes@.len(),
                total == merge_run(old(self)@, bytes@, Self::apply_fn()),
                merge_run(cur@, bytes@.skip(pos as int), Self::apply_fn()) == total,
            decreases bytes@.len() - pos,
        {
            let ghost s = bytes@.skip(pos as int);
            proof {
                lemma_merge_run_step(cur@, s, Self::apply_fn());
                lemma_parse_field_len(s);
            }
            match read_field(bytes, pos) {
                Ok((f, end)) => {
                    assert(bytes@.skip(end as int) =~= s.skip((end - pos) as int));
                    match cur.applied(&f) {
                        Ok(m) => {
                            cur = m;
                        },
                        Err((m, e)) => {
                            *self = m;
                            return Err(e);
                        },
                    }
                    pos = end;
                },
                Err(e) => {
                    *self = cur;
                    return Err(e);
                },
            }
        }
        assert(bytes@.skip(pos as int) =~= Seq::<u8>::empty());
        proof {
            lemma_merge_run_empty(cur@, Self::apply_fn());
        }
        *self = cur;
        Ok(())
    }

    /// Decodes a message from its encoding.
    pub fn decode(bytes: &[u8]) -> (r: Result<Self, WireError>)
        ensures
            match Self::spec_decode(bytes@) {
                Ok(v) => r matches Ok(m) && m@ == v,
                Err(e) => r matches Err(x) && x == e,
            },
    {
        proof {
            reveal(CPublishedFile_FileDeleted_Client_Notification::spec_decode);
        }
        let mut m = Self::default();
        match m.merge(bytes) {
            Ok(()) => Ok(m),
            Err(e) => Err(e),
        }
    }

    /// The encoding of this message.
    pub fn encode_to_vec(&self) -> (r: Vec<u8>)
        ensures
            r@ == Self::spec_encode(self@),
    {
        let ghost v = self@;
        let mut out: Vec<u8> = Vec::new();
        let ghost p0 = Seq::<SpecField>::empty();
        put_opt_fixed64(&mut out, 1, self.published_file_id);
        let ghost p1 = p0 + opt_fixed64(1, v.published_file_id);
        proof {
            lemma_fields_bytes_concat(p0, opt_fixed64(1, v.published_file_id));
        }
        put_opt_u32(&mut out, 2, self.app_id);
        let ghost p2 = p1 + opt_u32(2, v.app_id);
        proof {
            lemma_fields_bytes_concat(p1, opt_u32(2, v.app_id));
        }
        proof {
            reveal(CPublishedFile_FileDeleted_Client_Notification::spec_encode);
        }
        assert(p2 == Self::spec_fields(v));
        out
    }

    /// Appends the encoding of this message to `out`.
    pub fn encode_raw(&self, out: &mut Vec<u8>)
        ensures
            final(out)@ == old(out)@ + Self::spec_encode(self@),
    {
        let mut b = self.encode_to_vec();
        out.append(&mut b);
    }

    /// The first `k` fields of `v`, the others as a fresh message has them.
    #[verifier::opaque]
    pub open spec fn spec_prefix(v: SpecCPublishedFile_FileDeleted_Client_Notification, k: int) -> SpecCPublishedFile_FileDeleted_Client_Notification {
        SpecCPublishedFile_FileDeleted_Client_Notification {
            published_file_id: if 1 <= k { v.published_file_id } else { None },
            app_id: if 2 <= k { v.app_id } else { None },
        }
    }

    /// Reading field 1 back, after the fields before it.
    proof fn lemma_field_published_file_id(v: SpecCPublishedFile_FileDeleted_Client_Notification)
        ensures
            fold_fields(Self::spec_prefix(v, 0), opt_fixed64(1, v.published_file_id), Self::apply_fn())
                == Ok::<SpecCPublishedFile_FileDeleted_Client_Notification, WireError>(Self::spec_prefix(v, 1)),
    {
        reveal(CPublishedFile_FileDeleted_Client_Notification::spec_prefix);
        reveal(opt_fixed64);
        let apply = Self::apply_fn();
        let s = Self::spec_prefix(v, 0);
        lemma_fold_opt(s, 1, match v.published_file_id { Some(x) => Some(enc_fixed64(x)), None => None }, apply);
        if let Some(x) = v.published_file_id {
            lemma_u64_roundtrip(x);
        }
        assert(SpecCPublishedFile_FileDeleted_Client_Notification { published_file_id: v.published_file_id, ..s } == Self::spec_prefix(v, 1));
    }

    /// Reading field 2 back, after the fields before it.
    proof fn lemma_field_app_id(v: SpecCPublishedFile_FileDeleted_Client_Notification)
        ensures
            fold_fields(Self::spec_prefix(v, 1), opt_u32(2, v.app_id), Self::apply_fn())
                == Ok::<SpecCPublishedFile_FileDeleted_Client_Notification, WireError>(Self::spec_prefix(v, 2)),
    {
        reveal(CPublishedFile_FileDeleted_Client_Notification::spec_prefix);
        reveal(opt_u32);
        let apply = Self::apply_fn();
        let s = Self::spec_prefix(v, 1);
        lemma_fold_opt(s, 2, match v.app_id { Some(x) => Some(enc_u32(x)), None => None }, apply);
        if let Some(x) = v.app_id {
            lemma_u32_roundtrip(x);
        }
        assert(SpecCPublishedFile_FileDeleted_Client_Notification { app_id: v.app_id, ..s } == Self::spec_prefix(v, 2));
    }

    /// Whether this message declares field number `n`.
    pub open spec fn declares(n: u32) -> bool {
        n == 1 || n == 2
    }

    /// A record with a number this message does not declare is passed over: well-formed
    /// bytes decode to the same message with such a record after them as without it.
    pub proof fn lemma_unknown_field(bytes: Seq<u8>, f: SpecField)
        requires
            parse_fields(bytes) is Ok,
            field_wf(f),
            !Self::declares(f.number),
        ensures
            Self::spec_decode(bytes + field_bytes(f)) == Self::spec_decode(bytes),
    {
        reveal(CPublishedFile_FileDeleted_Client_Notification::spec_decode);
        lemma_parse_fields_append(bytes, f);
        let fs = parse_fields(bytes).unwrap();
        let apply = Self::apply_fn();
        lemma_fold_concat(Self::spec_default(), fs, seq![f], apply);
        assert(fs.push(f) =~= fs + seq![f]);
        if let Ok(w) = fold_fields(Self::spec_default(), fs, apply) {
            lemma_fold_single(w, f, apply);
        }
        lemma_merge_run_fold(Self::spec_default(), bytes, apply);
        lemma_merge_run_fold(Self::spec_default(), bytes + field_bytes(f), apply);
    }

    /// Decoding the encoding of a message gives the message back.
    pub proof fn lemma_decode_encode(v: SpecCPublishedFile_FileDeleted_Client_Notification)
        requires
            Self::spec_encode(v).len() <= u64::MAX,
        ensures
            Self::spec_decode(Self::spec_encode(v)) == Ok::<SpecCPublishedFile_FileDeleted_Client_Notification, WireError>(v),
    {
        let apply = Self::apply_fn();
        let d = Self::spec_default();
        let p0 = Seq::<SpecField>::empty();
        let l1 = opt_fixed64(1, v.published_file_id);
        let p1 = p0 + l1;
        let l2 = opt_u32(2, v.app_id);
        let p2 = p1 + l2;
        assert(parse_fields(Self::spec_encode(v)) == Ok::<Seq<SpecField>, WireError>(p2)) by {
            reveal(CPublishedFile_FileDeleted_Client_Notification::spec_encode);
            assert(numbers_ok(p0) && fields_wf(p0)) by {
                reveal(numbers_ok);
                reveal(fields_wf);
            }
            lemma_opt_fixed64_numbered(1, v.published_file_id);
            lemma_fields_wf_concat(p0, l1);
            lemma_opt_u32_numbered(2, v.app_id);
            lemma_fields_wf_concat(p1, l2);
            assert(p2 == Self::spec_fields(v));
            lemma_fields_wf_from_len(p2);
            lemma_fields_roundtrip(p2);
        }
        assert(Self::spec_prefix(v, 0) == d) by {
            reveal(CPublishedFile_FileDeleted_Client_Notification::spec_prefix);
        }
        lemma_fold_empty(d, apply);
        lemma_fold_concat(d, p0, l1, apply);
        Self::lemma_field_published_file_id(v);
        lemma_fold_concat(d, p1, l2, apply);
        Self::lemma_field_app_id(v);
        assert(Self::spec_prefix(v, 2) == v) by {
            reveal(CPublishedFile_FileDeleted_Client_Notification::spec_prefix);
        }
        lemma_merge_run_fold(d, Self::spec_encode(v), apply);
        assert(Self::spec_decode(Self::spec_encode(v)) == Ok::<SpecCPublishedFile_FileDeleted_Client_Notification, WireError>(v)) by {
            reveal(CPublishedFile_FileDeleted_Client_Notification::spec_decode);
        }
    }
}

/// Unified-message target for `PublishedFile.GetUserFileCount`.
///
/// It shares its request type with `PublishedFile.GetUserFiles`, so it cannot carry an
/// `Rpc` binding of its own — call it by naming this target.
pub const TARGET_PUBLISHED_FILE_GET_USER_FILE_COUNT: &'static str = "PublishedFile.GetUserFileCount";

impl Rpc for crate::steammessages_publishedfile_steamclient::CPublishedFile_Vote_Request {
    type Response = crate::steammessages_publishedfile_steamclient::CPublishedFile_Vote_Response;

    const TARGET: &'static str = "PublishedFile.Vote";
}

impl Rpc for crate::steammessages_publishedfile_steamclient::CPublishedFile_Subscribe_Request {
    type Response = crate::steammessages_publishedfile_steamclient::CPublishedFile_Subscribe_Response;

    const TARGET: &'static str = "PublishedFile.Subscribe";
}

impl Rpc for crate::steammessages_publishedfile_steamclient::CPublishedFile_Unsubscribe_Request {
    type Response = crate::steammessages_publishedfile_steamclient::CPublishedFile_Unsubscribe_Response;

    const TARGET: &'static str = "PublishedFile.Unsubscribe";
}

impl Rpc for crate::steammessages_publishedfile_steamclient::CPublishedFile_CanSubscribe_Request {
    type Response = crate::steammessages_publishedfile_steamclient::CPublishedFile_CanSubscribe_Response;

    const TARGET: &'static str = "PublishedFile.CanSubscribe";
}

impl Rpc for crate::steammessages_publishedfile_steamclient::CPublishedFile_GetSubSectionData_Request {
    type Response = crate::steammessages_publishedfile_steamclient::CPublishedFile_GetSubSectionData_Response;

    const TARGET: &'static str = "PublishedFile.GetSubSectionData";
}

impl Rpc for crate::steammessages_publishedfile_steamclient::CPublishedFile_Publish_Request {
    type Response = crate::steammessages_publishedfile_steamclient::CPublishedFile_Publish_Response;

    const TARGET: &'static str = "PublishedFile.Publish";
}

impl Rpc for crate::steammessages_publishedfile_steamclient::CPublishedFile_GetDetails_Request {
    type Response = crate::steammessages_publishedfile_steamclient::CPublishedFile_GetDetails_Response;

    const TARGET: &'static str = "PublishedFile.GetDetails";
}

impl Rpc for crate::steammessages_publishedfile_steamclient::CPublishedFile_GetItemInfo_Request {
    type Response = crate::steammessages_publishedfile_steamclient::CPublishedFile_GetItemInfo_Response;

    const TARGET: &'static str = "PublishedFile.GetItemInfo";
}

impl Rpc for crate::steammessages_publishedfile_steamclient::CPublishedFile_GetUserFiles_Request {
    type Response = crate::steammessages_publishedfile_steamclient::CPublishedFile_GetUserFiles_Response;

    const TARGET: &'static str = "PublishedFile.GetUserFiles";
}

impl Rpc for crate::steammessages_publishedfile_steamclient::CPublishedFile_AreFilesInSubscriptionList_Request {
    type Response = crate::steammessages_publishedfile_steamclient::CPublishedFile_AreFilesInSubscriptionList_Response;

    const TARGET: &'static str = "PublishedFile.AreFilesInSubscriptionList";
}

impl Rpc for crate::steammessages_publishedfile_steamclient::CPublishedFile_Update_Request {
    type Response = crate::steammessages_publishedfile_steamclient::CPublishedFile_Update_Response;

    const TARGET: &'static str = "PublishedFile.Update";
}

impl Rpc for crate::steammessages_publishedfile_steamclient::CPublishedFile_Delete_Request {
    type Response = crate::steammessages_publishedfile_steamclient::CPublishedFile_Delete_Response;

    const TARGET: &'static str = "PublishedFile.Delete";
}

impl Rpc for crate::steammessages_publishedfile_steamclient::CPublishedFile_GetChangeHistoryEntry_Request {
    type Response = crate::steammessages_publishedfile_steamclient::CPublishedFile_GetChangeHistoryEntry_Response;

    const TARGET: &'static str = "PublishedFile.GetChangeHistoryEntry";
}

impl Rpc for crate::steammessages_publishedfile_steamclient::CPublishedFile_GetChangeHistory_Request {
    type Response = crate::steammessages_publishedfile_steamclient::CPublishedFile_GetChangeHistory_Response;

    const TARGET: &'static str = "PublishedFile.GetChangeHistory";
}

impl Rpc for crate::steammessages_publishedfile_steamclient::CPublishedFile_RefreshVotingQueue_Request {
    type Response = crate::steammessages_publishedfile_steamclient::CPublishedFile_RefreshVotingQueue_Response;

    const TARGET: &'static str = "PublishedFile.RefreshVotingQueue";
}

impl Rpc for crate::steammessages_publishedfile_steamclient::CPublishedFile_QueryFiles_Request {
    type Response = crate::steammessages_publishedfile_steamclient::CPublishedFile_QueryFiles_Response;

    const TARGET: &'static str = "PublishedFile.QueryFiles";
}

impl Rpc for crate::steammessages_publishedfile_steamclient::CPublishedFile_AddAppRelationship_Request {
    type Response = crate::steammessages_publishedfile_steamclient::CPublishedFile_AddAppRelationship_Response;

    const TARGET: &'static str = "PublishedFile.AddAppRelationship";
}

impl Rpc for crate::steammessages_publishedfile_steamclient::CPublishedFile_RemoveAppRelationship_Request {
    type Response = crate::steammessages_publishedfile_steamclient::CPublishedFile_RemoveAppRelationship_Response;

    const TARGET: &'static str = "PublishedFile.RemoveAppRelationship";
}

impl Rpc for crate::steammessages_publishedfile_steamclient::CPublishedFile_GetAppRelationships_Request {
    type Response = crate::steammessages_publishedfile_steamclient::CPublishedFile_GetAppRelationships_Response;

    const TARGET: &'static str = "PublishedFile.GetAppRelationships";
}

impl Rpc for crate::steammessages_publishedfile_steamclient::CPublishedFile_GetAppRelationshipsBatched_Request {
    type Response = crate::steammessages_publishedfile_steamclient::CPublishedFile_GetAppRelationshipsBatched_Response;

    const TARGET: &'static str = "PublishedFile.GetAppRelationshipsBatched";
}

impl Rpc for crate::steammessages_publishedfile_steamclient::CPublishedFile_StartPlaytimeTracking_Request {
    type Response = crate::steammessages_publishedfile_steamclient::CPublishedFile_StartPlaytimeTracking_Response;

    const TARGET: &'static str = "PublishedFile.StartPlaytimeTracking";
}

impl Rpc for crate::steammessages_publishedfile_steamclient::CPublishedFile_StopPlaytimeTracking_Request {
    type Response = crate::steammessages_publishedfile_steamclient::CPublishedFile_StopPlaytimeTracking_Response;

    const TARGET: &'static str = "PublishedFile.StopPlaytimeTracking";
}

impl Rpc for crate::steammessages_publishedfile_steamclient::CPublishedFile_StopPlaytimeTrackingForAllAppItems_Request {
    type Response = crate::steammessages_publishedfile_steamclient::CPublishedFile_StopPlaytimeTrackingForAllAppItems_Response;

    const TARGET: &'static str = "PublishedFile.StopPlaytimeTrackingForAllAppItems";
}

impl Rpc for crate::steammessages_publishedfile_steamclient::CPublishedFile_SetPlaytimeForControllerConfigs_Request {
    type Response = crate::steammessages_publishedfile_steamclient::CPublishedFile_SetPlaytimeForControllerConfigs_Response;

    const TARGET: &'static str = "PublishedFile.SetPlaytimeForControllerConfigs";
}

impl Rpc for crate::steammessages_publishedfile_steamclient::CPublishedFile_AddChild_Request {
    type Response = crate::steammessages_publishedfile_steamclient::CPublishedFile_AddChild_Response;

    const TARGET: &'static str = "PublishedFile.AddChild";
}

impl Rpc for crate::steammessages_publishedfile_steamclient::CPublishedFile_RemoveChild_Request {
    type Response = crate::steammessages_publishedfile_steamclient::CPublishedFile_RemoveChild_Response;

    const TARGET: &'static str = "PublishedFile.RemoveChild";
}

impl Rpc for crate::steammessages_publishedfile_steamclient::CPublishedFile_SetCollectionChildren_Request {
    type Response = crate::steammessages_publishedfile_steamclient::CPublishedFile_SetCollectionChildren_Response;

    const TARGET: &'static str = "PublishedFile.SetCollectionChildren";
}

impl Rpc for crate::steammessages_publishedfile_steamclient::CPublishedFile_SetSubscriptionListFromCollection_Request {
    type Response = crate::steammessages_publishedfile_steamclient::CPublishedFile_SetSubscriptionListFromCollection_Response;

    const TARGET: &'static str = "PublishedFile.SetSubscriptionListFromCollection";
}

impl Rpc for crate::steammessages_publishedfile_steamclient::CPublishedFile_GetUserVoteSummary_Request {
    type Response = crate::steammessages_publishedfile_steamclient::CPublishedFile_GetUserVoteSummary_Response;

    const TARGET: &'static str = "PublishedFile.GetUserVoteSummary";
}

impl Rpc for crate::steammessages_publishedfile_steamclient::CPublishedFile_GetItemChanges_Request {
    type Response = crate::steammessages_publishedfile_steamclient::CPublishedFile_GetItemChanges_Response;

    const TARGET: &'static str = "PublishedFile.GetItemChanges";
}

impl Rpc for crate::steammessages_publishedfile_steamclient::CPublishedFile_GetContentDescriptors_Request {
    type Response = crate::steammessages_publishedfile_steamclient::CPublishedFile_GetContentDescriptors_Response;

    const TARGET: &'static str = "PublishedFile.GetContentDescriptors";
}

impl Rpc for crate::steammessages_publishedfile_steamclient::CPublishedFile_UpdateContentDescriptors_Request {
    type Response = crate::steammessages_publishedfile_steamclient::CPublishedFile_UpdateContentDescriptors_Response;

    const TARGET: &'static str = "PublishedFile.UpdateContentDescriptors";
}

impl Rpc for crate::steammessages_publishedfile_steamclient::CPublishedFile_FileSubscribed_Notification {
    type Response = crate::steammessages_unified_base_steamclient::NoResponse;

    const TARGET: &'static str = "PublishedFileClient.NotifyFileSubscribed";
}

impl Rpc for crate::steammessages_publishedfile_steamclient::CPublishedFile_FileUnsubscribed_Notification {
    type Response = crate::steammessages_unified_base_steamclient::NoResponse;

    const TARGET: &'static str = "PublishedFileClient.NotifyFileUnsubscribed";
}

impl Rpc for crate::steammessages_publishedfile_steamclient::CPublishedFile_FileDeleted_Client_Notification {
    type Response = crate::steammessages_unified_base_steamclient::NoResponse;

    const TARGET: &'static str = "PublishedFileClient.NotifyFileDeleted";
}

} // verus!
