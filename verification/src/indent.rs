//! Left padding of a text block with spaces.

use vstd::prelude::*;
use vstd::string::StringExecFns;

verus! {

/// A run of `width` space characters.
pub open spec fn spaces(width: nat) -> Seq<char> {
    Seq::new(width, |i: int| ' ')
}

/// `text` behind `width` space characters. Line breaks inside `text` are not
/// touched: only the first line moves.
pub open spec fn pad(text: Seq<char>, width: nat) -> Seq<char> {
    spaces(width) + text
}

/// Puts `indentation` spaces in front of `value`.
pub fn indent(value: &str, indentation: usize) -> (result: String)
    ensures
        result@ == pad(value@, indentation as nat),
{
    let mut result = String::new();
    let mut done: usize = 0;
    while done < indentation
        invariant
            done <= indentation,
            result@ == spaces(done as nat),
        decreases indentation - done,
    {
        proof {
            reveal_strlit(" ");
            assert(spaces(done as nat) + " "@ =~= spaces((done + 1) as nat));
        }
        result.append(" ");
        done += 1;
    }
    result.append(value);
    result
}

} // verus!
