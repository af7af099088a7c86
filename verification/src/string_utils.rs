//! Small helpers on text.

use crate::chars::chars_of;
use vstd::prelude::*;

verus! {

/// Splits `s` at the first occurrence of the delimiter `d`. The result is
/// what stands before that occurrence and what stands behind it, without the
/// delimiter itself; there is none where `d` does not occur in `s`.
pub fn split_into_tuple(s: &str, d: char) -> (r: Option<(&str, &str)>)
    ensures
        (match r {
            Some((before, after)) => before@ + seq![d] + after@ == s@ && !before@.contains(d),
            None => !s@.contains(d),
        }),
{
    let chars = chars_of(s);
    let mut p: usize = 0;
    while p < chars.len() && chars[p] != d
        invariant
            p <= chars.len(),
            forall|i: int| 0 <= i < p ==> chars@[i] != d,
        decreases chars.len() - p,
    {
        p += 1;
    }
    if p < chars.len() {
        let before = s.substring_char(0, p);
        let after = s.substring_char(p + 1, chars.len());
        assert(before@ + seq![d] + after@ =~= s@);
        Some((before, after))
    } else {
        None
    }
}

} // verus!
