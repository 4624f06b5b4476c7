//! The contract every filter honours: what a call reports back.

use vstd::prelude::*;

verus! {

/// Outcome of one filter call.
#[derive(Clone, Copy, Debug, PartialEq, Eq, Structural)]
pub enum FilterStatus {
    /// The request was carried out.
    Success,
    /// The configuration could not be read; the buffer is untouched.
    InvalidConfig,
    /// The buffer does not fit the dimensions; the buffer is untouched.
    NoOp,
}

impl FilterStatus {
    /// The number that stands for a status on the C side of the boundary.
    pub open spec fn spec_code(self) -> u32 {
        match self {
            FilterStatus::Success => 0,
            FilterStatus::InvalidConfig => 1,
            FilterStatus::NoOp => 2,
        }
    }

    /// The number that stands for this status: 0 for success, nonzero otherwise.
    pub fn code(self) -> (c: u32)
        ensures
            c == self.spec_code(),
            c == 0 <==> self == FilterStatus::Success,
    {
        match self {
            FilterStatus::Success => 0,
            FilterStatus::InvalidConfig => 1,
            FilterStatus::NoOp => 2,
        }
    }

    /// The status a number stands for, if any.
    pub open spec fn spec_from_code(code: u32) -> Option<FilterStatus> {
        if code == 0 {
            Some(FilterStatus::Success)
        } else if code == 1 {
            Some(FilterStatus::InvalidConfig)
        } else if code == 2 {
            Some(FilterStatus::NoOp)
        } else {
            None
        }
    }

    /// The status a number stands for: `None` for a number that stands for none.
    pub fn from_code(code: u32) -> (status: Option<FilterStatus>)
        ensures
            status == FilterStatus::spec_from_code(code),
            status matches Some(s) ==> s.spec_code() == code,
            status is None <==> code > 2,
    {
        if code == 0 {
            Some(FilterStatus::Success)
        } else if code == 1 {
            Some(FilterStatus::InvalidConfig)
        } else if code == 2 {
            Some(FilterStatus::NoOp)
        } else {
            None
        }
    }
}

} // verus!
