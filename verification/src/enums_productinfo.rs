//! Enums of `enums_productinfo.proto` that the other schemas refer to.

#![allow(non_camel_case_types, non_snake_case, non_upper_case_globals)]

use std::cmp::Ordering;
use vstd::prelude::*;
use vstd::std_specs::cmp::PartialOrdSpecImpl;
use vstd::std_specs::convert::FromSpecImpl;


verus! {

/// `EContentDescriptorID`, as a newtype so an unrecognised value round-trips instead of
/// being rejected. Valve adds values without warning.
#[derive(Debug, Clone, Copy, PartialEq, Eq, Ord, Hash, Structural)]
pub struct EContentDescriptorID(pub i32);

impl EContentDescriptorID {
    /// `k_EContentDescriptor_NudityOrSexualContent` = `1`
    #[allow(non_snake_case)]
    pub fn k_EContentDescriptor_NudityOrSexualContent() -> (r: Self)
        ensures
            r.0 == 1,
    {
        Self(1)
    }

    /// The underlying value, as it appears on the wire.
    pub fn value(self) -> (r: i32)
        ensures
            r == self.0,
    {
        self.0
    }

    pub open spec fn values(xs: Seq<Self>) -> Seq<i32> {
        xs.map_values(|e: Self| e.0)
    }

    /// Wraps each wire value.
    pub fn from_values(xs: &Vec<i32>) -> (r: Vec<Self>)
        ensures
            Self::values(r@) == xs@,
    {
        let mut out: Vec<Self> = Vec::new();
        let mut i: usize = 0;
        while i < xs.len()
            invariant
                i <= xs@.len(),
                out@.len() == i,
                forall|j: int| 0 <= j < i ==> #[trigger] out@[j].0 == xs@[j],
            decreases xs@.len() - i,
        {
            out.push(Self(xs[i]));
            i = i + 1;
        }
        assert(Self::values(out@) =~= xs@);
        out
    }

    /// The wire value of each element.
    pub fn values_of(xs: &Vec<Self>) -> (r: Vec<i32>)
        ensures
            r@ == Self::values(xs@),
    {
        let mut out: Vec<i32> = Vec::new();
        let mut i: usize = 0;
        while i < xs.len()
            invariant
                i <= xs@.len(),
                out@ =~= Self::values(xs@.take(i as int)),
            decreases xs@.len() - i,
        {
            out.push(xs[i].0);
            i = i + 1;
            assert(out@ =~= Self::values(xs@.take(i as int)));
        }
        assert(xs@.take(i as int) =~= xs@);
        out
    }
}

impl From<i32> for EContentDescriptorID {
    fn from(value: i32) -> Self {
        Self(value)
    }
}

impl FromSpecImpl<i32> for EContentDescriptorID {
    open spec fn obeys_from_spec() -> bool {
        true
    }

    open spec fn from_spec(v: i32) -> Self {
        EContentDescriptorID(v)
    }
}

/// A fresh value is `0`, the value the schema lists first.
impl Default for EContentDescriptorID {
    fn default() -> (r: Self)
        ensures
            r.0 == 0,
    {
        Self(0)
    }
}

/// Values are ordered by their wire value.
impl PartialOrd for EContentDescriptorID {
    fn partial_cmp(&self, other: &Self) -> (r: Option<Ordering>) {
        if self.0 < other.0 {
            Some(Ordering::Less)
        } else if self.0 == other.0 {
            Some(Ordering::Equal)
        } else {
            Some(Ordering::Greater)
        }
    }
}

impl PartialOrdSpecImpl for EContentDescriptorID {
    open spec fn obeys_partial_cmp_spec() -> bool {
        true
    }

    open spec fn partial_cmp_spec(&self, other: &Self) -> Option<Ordering> {
        if self.0 < other.0 {
            Some(Ordering::Less)
        } else if self.0 == other.0 {
            Some(Ordering::Equal)
        } else {
            Some(Ordering::Greater)
        }
    }
}

} // verus!
