//! Small verified helpers over strings, shared by the identifier
//! normalizer and the version parser.

use vstd::prelude::*;

verus! {

/// Character-wise string equality, proved against the string views.
pub fn str_eq(a: &str, b: &str) -> (r: bool)
    ensures
        r == (a@ == b@),
{
    let an = a.unicode_len();
    let bn = b.unicode_len();
    if an != bn {
        return false;
    }
    let mut i: usize = 0;
    while i < an
        invariant
            i <= an,
            an == a@.len(),
            an == b@.len(),
            forall|k: int| 0 <= k < i ==> a@[k] == b@[k],
        decreases an - i,
    {
        if a.get_char(i) != b.get_char(i) {
            return false;
        }
        i += 1;
    }
    proof {
        assert(a@ =~= b@);
    }
    true
}

/// Appends the character at index `i` of `s` to `out`.
pub fn push_copied(out: &mut String, s: &str, i: usize)
    requires
        i < s@.len(),
        i < usize::MAX,
    ensures
        final(out)@ == old(out)@.push(s@[i as int]),
{
    let piece = s.substring_char(i, i + 1);
    out.append(piece);
    proof {
        assert(piece@ =~= seq![s@[i as int]]);
        assert(old(out)@ + piece@ =~= old(out)@.push(s@[i as int]));
    }
}

} // verus!
