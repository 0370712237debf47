//! The virtual-machine generation a runtime reports, parsed from the same
//! two property formats as [`crate::version::JavaVersion`].

use vstd::prelude::*;

use crate::version::{version_slot, version_slot_of};

verus! {

/// A recognized virtual-machine generation, or the unrecognized raw string.
#[derive(Debug, Clone, PartialEq, Eq)]
pub enum JvmVersion {
    V0,
    V1,
    V2,
    V3,
    V4,
    V5,
    V6,
    V7,
    V8,
    V9,
    V10,
    V11,
    V12,
    V13,
    V14,
    V15,
    V16,
    V17,
    V18,
    V19,
    V20,
    V21,
    V22,
    V23,
    Invalid(String),
}

impl JvmVersion {
    /// The variant standing for version number `n`.
    pub open spec fn spec_of_slot(n: u8) -> JvmVersion {
        if n == 0 {
            JvmVersion::V0
        } else if n == 1 {
            JvmVersion::V1
        } else if n == 2 {
            JvmVersion::V2
        } else if n == 3 {
            JvmVersion::V3
        } else if n == 4 {
            JvmVersion::V4
        } else if n == 5 {
            JvmVersion::V5
        } else if n == 6 {
            JvmVersion::V6
        } else if n == 7 {
            JvmVersion::V7
        } else if n == 8 {
            JvmVersion::V8
        } else if n == 9 {
            JvmVersion::V9
        } else if n == 10 {
            JvmVersion::V10
        } else if n == 11 {
            JvmVersion::V11
        } else if n == 12 {
            JvmVersion::V12
        } else if n == 13 {
            JvmVersion::V13
        } else if n == 14 {
            JvmVersion::V14
        } else if n == 15 {
            JvmVersion::V15
        } else if n == 16 {
            JvmVersion::V16
        } else if n == 17 {
            JvmVersion::V17
        } else if n == 18 {
            JvmVersion::V18
        } else if n == 19 {
            JvmVersion::V19
        } else if n == 20 {
            JvmVersion::V20
        } else if n == 21 {
            JvmVersion::V21
        } else if n == 22 {
            JvmVersion::V22
        } else {
            JvmVersion::V23
        }
    }

    fn of_slot(n: u8) -> (r: Self)
        requires
            n <= 23,
        ensures
            r == Self::spec_of_slot(n),
    {
        if n == 0 {
            JvmVersion::V0
        } else if n == 1 {
            JvmVersion::V1
        } else if n == 2 {
            JvmVersion::V2
        } else if n == 3 {
            JvmVersion::V3
        } else if n == 4 {
            JvmVersion::V4
        } else if n == 5 {
            JvmVersion::V5
        } else if n == 6 {
            JvmVersion::V6
        } else if n == 7 {
            JvmVersion::V7
        } else if n == 8 {
            JvmVersion::V8
        } else if n == 9 {
            JvmVersion::V9
        } else if n == 10 {
            JvmVersion::V10
        } else if n == 11 {
            JvmVersion::V11
        } else if n == 12 {
            JvmVersion::V12
        } else if n == 13 {
            JvmVersion::V13
        } else if n == 14 {
            JvmVersion::V14
        } else if n == 15 {
            JvmVersion::V15
        } else if n == 16 {
            JvmVersion::V16
        } else if n == 17 {
            JvmVersion::V17
        } else if n == 18 {
            JvmVersion::V18
        } else if n == 19 {
            JvmVersion::V19
        } else if n == 20 {
            JvmVersion::V20
        } else if n == 21 {
            JvmVersion::V21
        } else if n == 22 {
            JvmVersion::V22
        } else {
            JvmVersion::V23
        }
    }
}

impl From<String> for JvmVersion {
    /// Parses either version property format; an unrecognized string is kept
    /// inside [`JvmVersion::Invalid`].
    fn from(value: String) -> Self {
        match version_slot_of(value.as_str()) {
            Some(n) => {
                proof {
                    crate::version::lemma_version_slot_bound(value@);
                }
                JvmVersion::of_slot(n)
            },
            None => JvmVersion::Invalid(value),
        }
    }
}

impl vstd::std_specs::convert::FromSpecImpl<String> for JvmVersion {
    open spec fn obeys_from_spec() -> bool {
        true
    }

    open spec fn from_spec(v: String) -> JvmVersion {
        match version_slot(v@) {
            Some(n) => JvmVersion::spec_of_slot(n),
            None => JvmVersion::Invalid(v),
        }
    }
}

} // verus!
