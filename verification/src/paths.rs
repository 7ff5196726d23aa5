//! Chains of objects with one field each: folded into a dotted path, or
//! written out as nested blocks.

use crate::escape::escape_key;
use crate::indent::pad;
use crate::render::{block, field_lines, render, render_field};
use crate::value::Json;
use vstd::prelude::*;

verus! {

/// `leaf` inside one object of one field for each key, the first key
/// outermost.
pub open spec fn chain(keys: Seq<Seq<char>>, leaf: Json) -> Json
    decreases keys.len(),
{
    if keys.len() == 0 {
        leaf
    } else {
        Json::Object(seq![(keys.first(), chain(keys.drop_first(), leaf))])
    }
}

/// The keys as attribute names with a dot between each two.
pub open spec fn dotted(keys: Seq<Seq<char>>) -> Seq<char>
    decreases keys.len(),
{
    if keys.len() == 0 {
        Seq::empty()
    } else if keys.len() == 1 {
        escape_key(keys.first())
    } else {
        escape_key(keys.first()) + "."@ + dotted(keys.drop_first())
    }
}

/// One block inside the other, one for each key, each holding the assignment
/// of the next, and `leaf` innermost.
pub open spec fn nested(keys: Seq<Seq<char>>, leaf: Json, indentation: nat, increment: nat) -> Seq<char>
    decreases keys.len(),
{
    if keys.len() == 0 {
        render(leaf, indentation, increment, false)
    } else {
        block(
            "{"@,
            seq![
                pad(
                    escape_key(keys.first()) + " = "@ + nested(
                        keys.drop_first(),
                        leaf,
                        indentation + increment,
                        increment,
                    ) + ";"@,
                    indentation + increment,
                ),
            ],
            "}"@,
            indentation,
        )
    }
}

/// With folding, a chain of objects of one field each is written as one
/// assignment to the dotted path of its keys.
pub proof fn theorem_chain_folds(keys: Seq<Seq<char>>, leaf: Json, indentation: nat, increment: nat)
    requires
        keys.len() >= 1,
        !leaf.is_single(),
    ensures
        render(chain(keys, leaf), indentation, increment, true) == dotted(keys) + " = "@ + render(
            leaf,
            indentation,
            increment,
            true,
        ) + ";"@,
    decreases keys.len(),
{
    let rest = chain(keys.drop_first(), leaf);
    let inside = render(leaf, indentation, increment, true);
    assert(render(chain(keys, leaf), indentation, increment, true) == render_field(
        keys.first(),
        rest,
        indentation,
        increment,
        true,
    ));
    if keys.len() == 1 {
        assert(rest == leaf);
    } else {
        theorem_chain_folds(keys.drop_first(), leaf, indentation, increment);
        assert(rest.is_single());
        let head = escape_key(keys.first());
        let tail = dotted(keys.drop_first());
        assert(head + "."@ + (tail + " = "@ + inside + ";"@) =~= head + "."@ + tail + " = "@ + inside + ";"@);
    }
}

/// Without folding, the same chain is written as one block inside the other,
/// one for each key.
pub proof fn theorem_chain_nests(keys: Seq<Seq<char>>, leaf: Json, indentation: nat, increment: nat)
    ensures
        render(chain(keys, leaf), indentation, increment, false) == nested(keys, leaf, indentation, increment),
    decreases keys.len(),
{
    if keys.len() > 0 {
        let rest = chain(keys.drop_first(), leaf);
        let fields = seq![(keys.first(), rest)];
        theorem_chain_nests(keys.drop_first(), leaf, indentation + increment, increment);
        assert(field_lines(fields, indentation + increment, increment, false) =~= seq![
            pad(
                render_field(keys.first(), rest, indentation + increment, increment, false),
                indentation + increment,
            ),
        ]);
    }
}

} // verus!
