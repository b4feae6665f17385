//! Types nested inside `c_msg_gc_client`.

use std::cmp::Ordering;
use vstd::prelude::*;
use vstd::std_specs::cmp::PartialOrdSpecImpl;
use vstd::std_specs::convert::FromSpecImpl;


verus! {

/// `EFlag`, as a newtype so an unrecognised value round-trips instead of
/// being rejected. Valve adds values without warning.
#[derive(Debug, Clone, Copy, PartialEq, Eq, Ord, Hash, Structural)]
pub struct EFlag(pub i32);

impl EFlag {
    /// `VALVE_DS` = `1`
    #[allow(non_snake_case)]
    pub fn VALVE_DS() -> (r: Self)
        ensures
            r.0 == 1,
    {
        Self(1)
    }

    /// The underlying value, as it appears on the wire.
    pub fn value(self) -> (r: i32)
        ensures
            r == self.0,
    {
        self.0
    }
}

impl From<i32> for EFlag {
    fn from(value: i32) -> Self {
        Self(value)
    }
}

impl FromSpecImpl<i32> for EFlag {
    open spec fn obeys_from_spec() -> bool {
        true
    }

    open spec fn from_spec(v: i32) -> Self {
        EFlag(v)
    }
}

/// A fresh value is `0`, the value the schema lists first.
impl Default for EFlag {
    fn default() -> (r: Self)
        ensures
            r.0 == 0,
    {
        Self(0)
    }
}

/// Values are ordered by their wire value.
impl PartialOrd for EFlag {
    fn partial_cmp(&self, other: &Self) -> (r: Option<Ordering>) {
        if self.0 < other.0 {
            Some(Ordering::Less)
        } else if self.0 == other.0 {
            Some(Ordering::Equal)
        } else {
            Some(Ordering::Greater)
        }
    }
}

impl PartialOrdSpecImpl for EFlag {
    open spec fn obeys_partial_cmp_spec() -> bool {
        true
    }

    open spec fn partial_cmp_spec(&self, other: &Self) -> Option<Ordering> {
        if self.0 < other.0 {
            Some(Ordering::Less)
        } else if self.0 == other.0 {
            Some(Ordering::Equal)
        } else {
            Some(Ordering::Greater)
        }
    }
}

} // verus!
