//! Small tools on character strings.

use vstd::prelude::*;
use vstd::std_specs::iter::IteratorSpec;

verus! {

/// `String::push` puts one character at the end of the string and leaves the
/// rest as it was.
pub assume_specification[ std::string::String::push ](buffer: &mut std::string::String, ch: char)
    ensures
        final(buffer)@ == old(buffer)@.push(ch),
;

/// Whether two strings hold the same characters.
pub(crate) fn same_text(left: &str, right: &str) -> (same: bool)
    ensures
        same == (left@ == right@),
{
    let mut rest_left = left.chars();
    let mut rest_right = right.chars();
    let ghost mut seen: int = 0;
    loop
        invariant
            0 <= seen <= left@.len(),
            seen <= right@.len(),
            rest_left.remaining() == left@.skip(seen),
            rest_right.remaining() == right@.skip(seen),
            left@.take(seen) == right@.take(seen),
        decreases left@.len() - seen,
    {
        let here = rest_left.next();
        let there = rest_right.next();
        match (here, there) {
            (Some(a), Some(b)) => {
                if a != b {
                    assert(left@[seen] != right@[seen]);
                    return false;
                }
                proof {
                    assert(left@.take(seen + 1) =~= left@.take(seen).push(left@[seen]));
                    assert(right@.take(seen + 1) =~= right@.take(seen).push(right@[seen]));
                    assert(left@.skip(seen).drop_first() =~= left@.skip(seen + 1));
                    assert(right@.skip(seen).drop_first() =~= right@.skip(seen + 1));
                    seen = seen + 1;
                }
            },
            (None, None) => {
                assert(left@.take(seen) =~= left@);
                assert(right@.take(seen) =~= right@);
                return true;
            },
            _ => {
                assert(left@.len() != right@.len());
                return false;
            },
        }
    }
}

} // verus!
