//! The language version a runtime reports, parsed from the two property
//! formats in use: `1.<minor>` for the early releases and a bare major
//! number afterwards.

use vstd::prelude::*;

use crate::text::str_eq;

verus! {

/// A recognized language version, or the unrecognized raw string.
#[derive(Debug, Clone, PartialEq, Eq)]
pub enum JavaVersion {
    V0,
    V1,
    V2,
    V3,
    V4,
    V5,
    V6,
    V7,
    V8,
    V9,
    V10,
    V11,
    V12,
    V13,
    V14,
    V15,
    V16,
    V17,
    V18,
    V19,
    V20,
    V21,
    V22,
    V23,
    Invalid(String),
}

/// The segment of `s` before its first dot (all of `s` if it has none).
pub open spec fn split_head(s: Seq<char>) -> Seq<char>
    decreases s.len(),
{
    if s.len() == 0 {
        s
    } else if s[0] == '.' {
        Seq::empty()
    } else {
        seq![s[0]] + split_head(s.skip(1))
    }
}

/// The part of `s` after its first dot (empty if it has none).
pub open spec fn split_tail(s: Seq<char>) -> Seq<char>
    decreases s.len(),
{
    if s.len() == 0 {
        Seq::empty()
    } else if s[0] == '.' {
        s.skip(1)
    } else {
        split_tail(s.skip(1))
    }
}

/// The version number named by the segment after `1.` in the early format.
pub open spec fn legacy_slot(seg: Seq<char>) -> Option<u8> {
    if seg == "0"@ {
        Some(0u8)
    } else if seg == "1"@ {
        Some(1u8)
    } else if seg == "2"@ {
        Some(2u8)
    } else if seg == "3"@ {
        Some(3u8)
    } else if seg == "4"@ {
        Some(4u8)
    } else if seg == "5"@ {
        Some(5u8)
    } else if seg == "6"@ {
        Some(6u8)
    } else if seg == "7"@ {
        Some(7u8)
    } else if seg == "8"@ {
        Some(8u8)
    } else {
        None
    }
}

/// The version number named by a leading major segment in the late format.
pub open spec fn major_slot(seg: Seq<char>) -> Option<u8> {
    if seg == "9"@ {
        Some(9u8)
    } else if seg == "10"@ {
        Some(10u8)
    } else if seg == "11"@ {
        Some(11u8)
    } else if seg == "12"@ {
        Some(12u8)
    } else if seg == "13"@ {
        Some(13u8)
    } else if seg == "14"@ {
        Some(14u8)
    } else if seg == "15"@ {
        Some(15u8)
    } else if seg == "16"@ {
        Some(16u8)
    } else if seg == "17"@ {
        Some(17u8)
    } else if seg == "18"@ {
        Some(18u8)
    } else if seg == "19"@ {
        Some(19u8)
    } else if seg == "20"@ {
        Some(20u8)
    } else if seg == "21"@ {
        Some(21u8)
    } else if seg == "22"@ {
        Some(22u8)
    } else if seg == "23"@ {
        Some(23u8)
    } else {
        None
    }
}

/// The version number a property string names, under either format.
pub open spec fn version_slot(s: Seq<char>) -> Option<u8> {
    if split_head(s) == "1"@ {
        legacy_slot(split_head(split_tail(s)))
    } else {
        major_slot(split_head(s))
    }
}

proof fn lemma_split_at_dot(s: Seq<char>, d: int)
    requires
        0 <= d <= s.len(),
        forall|k: int| 0 <= k < d ==> s[k] != '.',
        d < s.len() ==> s[d] == '.',
    ensures
        split_head(s) =~= s.take(d),
        split_tail(s) =~= if d < s.len() {
            s.skip(d + 1)
        } else {
            Seq::<char>::empty()
        },
    decreases s.len(),
{
    if d == 0 {
        if s.len() > 0 {
            assert(s[0] == '.');
        }
    } else {
        assert(s[0] != '.');
        let t = s.skip(1);
        assert(forall|k: int| 0 <= k < d - 1 ==> t[k] == s[k + 1] && t[k] != '.');
        lemma_split_at_dot(t, d - 1);
        assert(seq![s[0]] + t.take(d - 1) =~= s.take(d));
    }
}

/// Index of the first dot of `s`, or its length if it has none.
fn first_dot_index(s: &str) -> (r: usize)
    ensures
        r <= s@.len(),
        forall|k: int| 0 <= k < r ==> s@[k] != '.',
        r < s@.len() ==> s@[r as int] == '.',
{
    let n = s.unicode_len();
    let mut i: usize = 0;
    while i < n && s.get_char(i) != '.'
        invariant
            i <= n,
            n == s@.len(),
            forall|k: int| 0 <= k < i ==> s@[k] != '.',
        decreases n - i,
    {
        i += 1;
    }
    i
}

/// Computes [`version_slot`] of a property string.
pub fn version_slot_of(s: &str) -> (r: Option<u8>)
    ensures
        r == version_slot(s@),
{
    let n = s.unicode_len();
    let d = first_dot_index(s);
    proof {
        lemma_split_at_dot(s@, d as int);
    }
    let head = s.substring_char(0, d);
    if str_eq(head, "1") {
        if d == n {
            proof {
                assert(split_head(Seq::<char>::empty()) =~= Seq::<char>::empty());
                assert(legacy_slot(split_head(split_tail(s@))) is None) by {
                    reveal_strlit("0");
                    reveal_strlit("1");
                    reveal_strlit("2");
                    reveal_strlit("3");
                    reveal_strlit("4");
                    reveal_strlit("5");
                    reveal_strlit("6");
                    reveal_strlit("7");
                    reveal_strlit("8");
                }
            }
            return None;
        }
        let tail = s.substring_char(d + 1, n);
        let d2 = first_dot_index(tail);
        proof {
            lemma_split_at_dot(tail@, d2 as int);
        }
        let seg = tail.substring_char(0, d2);
        if str_eq(seg, "0") {
            Some(0)
        } else if str_eq(seg, "1") {
            Some(1)
        } else if str_eq(seg, "2") {
            Some(2)
        } else if str_eq(seg, "3") {
            Some(3)
        } else if str_eq(seg, "4") {
            Some(4)
        } else if str_eq(seg, "5") {
            Some(5)
        } else if str_eq(seg, "6") {
            Some(6)
        } else if str_eq(seg, "7") {
            Some(7)
        } else if str_eq(seg, "8") {
            Some(8)
        } else {
            None
        }
    } else {
        if str_eq(head, "9") {
            Some(9)
        } else if str_eq(head, "10") {
            Some(10)
        } else if str_eq(head, "11") {
            Some(11)
        } else if str_eq(head, "12") {
            Some(12)
        } else if str_eq(head, "13") {
            Some(13)
        } else if str_eq(head, "14") {
            Some(14)
        } else if str_eq(head, "15") {
            Some(15)
        } else if str_eq(head, "16") {
            Some(16)
        } else if str_eq(head, "17") {
            Some(17)
        } else if str_eq(head, "18") {
            Some(18)
        } else if str_eq(head, "19") {
            Some(19)
        } else if str_eq(head, "20") {
            Some(20)
        } else if str_eq(head, "21") {
            Some(21)
        } else if str_eq(head, "22") {
            Some(22)
        } else if str_eq(head, "23") {
            Some(23)
        } else {
            None
        }
    }
}

impl JavaVersion {
    /// The variant standing for version number `n`.
    pub open spec fn spec_of_slot(n: u8) -> JavaVersion {
        if n == 0 {
            JavaVersion::V0
        } else if n == 1 {
            JavaVersion::V1
        } else if n == 2 {
            JavaVersion::V2
        } else if n == 3 {
            JavaVersion::V3
        } else if n == 4 {
            JavaVersion::V4
        } else if n == 5 {
            JavaVersion::V5
        } else if n == 6 {
            JavaVersion::V6
        } else if n == 7 {
            JavaVersion::V7
        } else if n == 8 {
            JavaVersion::V8
        } else if n == 9 {
            JavaVersion::V9
        } else if n == 10 {
            JavaVersion::V10
        } else if n == 11 {
            JavaVersion::V11
        } else if n == 12 {
            JavaVersion::V12
        } else if n == 13 {
            JavaVersion::V13
        } else if n == 14 {
            JavaVersion::V14
        } else if n == 15 {
            JavaVersion::V15
        } else if n == 16 {
            JavaVersion::V16
        } else if n == 17 {
            JavaVersion::V17
        } else if n == 18 {
            JavaVersion::V18
        } else if n == 19 {
            JavaVersion::V19
        } else if n == 20 {
            JavaVersion::V20
        } else if n == 21 {
            JavaVersion::V21
        } else if n == 22 {
            JavaVersion::V22
        } else {
            JavaVersion::V23
        }
    }

    fn of_slot(n: u8) -> (r: Self)
        requires
            n <= 23,
        ensures
            r == Self::spec_of_slot(n),
    {
        if n == 0 {
            JavaVersion::V0
        } else if n == 1 {
            JavaVersion::V1
        } else if n == 2 {
            JavaVersion::V2
        } else if n == 3 {
            JavaVersion::V3
        } else if n == 4 {
            JavaVersion::V4
        } else if n == 5 {
            JavaVersion::V5
        } else if n == 6 {
            JavaVersion::V6
        } else if n == 7 {
            JavaVersion::V7
        } else if n == 8 {
            JavaVersion::V8
        } else if n == 9 {
            JavaVersion::V9
        } else if n == 10 {
            JavaVersion::V10
        } else if n == 11 {
            JavaVersion::V11
        } else if n == 12 {
            JavaVersion::V12
        } else if n == 13 {
            JavaVersion::V13
        } else if n == 14 {
            JavaVersion::V14
        } else if n == 15 {
            JavaVersion::V15
        } else if n == 16 {
            JavaVersion::V16
        } else if n == 17 {
            JavaVersion::V17
        } else if n == 18 {
            JavaVersion::V18
        } else if n == 19 {
            JavaVersion::V19
        } else if n == 20 {
            JavaVersion::V20
        } else if n == 21 {
            JavaVersion::V21
        } else if n == 22 {
            JavaVersion::V22
        } else {
            JavaVersion::V23
        }
    }
}

impl From<String> for JavaVersion {
    /// Parses either version property format; an unrecognized string is kept
    /// inside [`JavaVersion::Invalid`].
    fn from(value: String) -> Self {
        match version_slot_of(value.as_str()) {
            Some(n) => {
                proof {
                    lemma_version_slot_bound(value@);
                }
                JavaVersion::of_slot(n)
            },
            None => JavaVersion::Invalid(value),
        }
    }
}

impl vstd::std_specs::convert::FromSpecImpl<String> for JavaVersion {
    open spec fn obeys_from_spec() -> bool {
        true
    }

    open spec fn from_spec(v: String) -> JavaVersion {
        match version_slot(v@) {
            Some(n) => JavaVersion::spec_of_slot(n),
            None => JavaVersion::Invalid(v),
        }
    }
}

/// Every recognized version number is at most 23.
pub proof fn lemma_version_slot_bound(s: Seq<char>)
    ensures
        version_slot(s) matches Some(n) ==> n <= 23,
{
}

} // verus!
