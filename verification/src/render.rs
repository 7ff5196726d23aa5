//! The formatter: from a value tree to the text of a Nix expression.

use crate::escape::{escape_attribute_set_key, escape_key};
use crate::indent::{indent, pad};
use crate::value::{Json, JsonValue};
use vstd::prelude::*;
use vstd::string::StringExecFns;

verus! {

/// The lines one below the other, a line break between each two.
pub open spec fn join_lines(lines: Seq<Seq<char>>) -> Seq<char>
    decreases lines.len(),
{
    if lines.len() == 0 {
        Seq::empty()
    } else if lines.len() == 1 {
        lines[0]
    } else {
        join_lines(lines.drop_last()) + "\n"@ + lines.last()
    }
}

/// A block over several lines: the opener, then the lines, which carry their
/// own margin, then the closer on a line of its own at `indentation`.
pub open spec fn block(open: Seq<char>, lines: Seq<Seq<char>>, close: Seq<char>, indentation: nat) -> Seq<char> {
    open + "\n"@ + join_lines(lines) + "\n"@ + pad(close, indentation)
}

/// The text of `value`, whose first line the caller places and whose other
/// lines stand at `indentation` or deeper, `increment` more for each level.
/// With `compact`, an object of one field is folded into a dotted path.
pub open spec fn render(value: Json, indentation: nat, increment: nat, compact: bool) -> Seq<char>
    decreases value, 0nat,
{
    match value {
        Json::Null => "null"@,
        Json::Bool(flag) => if flag {
            "true"@
        } else {
            "false"@
        },
        Json::Number(text) => text,
        Json::String(text) => "\""@ + text + "\""@,
        Json::Array(items) => if items.len() == 0 {
            "[ ]"@
        } else {
            block(
                "["@,
                element_lines(items, indentation + increment, increment, compact),
                "]"@,
                indentation,
            )
        },
        Json::Object(fields) => if fields.len() == 0 {
            "{ }"@
        } else if fields.len() == 1 && compact {
            render_field(fields[0].0, fields[0].1, indentation, increment, compact)
        } else {
            block(
                "{"@,
                field_lines(fields, indentation + increment, increment, compact),
                "}"@,
                indentation,
            )
        },
    }
}

/// The lines of an array's elements, each moved right to `indentation`.
pub open spec fn element_lines(items: Seq<Json>, indentation: nat, increment: nat, compact: bool) -> Seq<Seq<char>>
    decreases items, 0nat,
{
    Seq::new(
        items.len(),
        |i: int|
            if 0 <= i < items.len() {
                pad(render_element(items[i], indentation, increment, compact), indentation)
            } else {
                Seq::empty()
            },
    )
}

/// The lines of an object's fields, each moved right to `indentation`.
pub open spec fn field_lines(fields: Seq<(Seq<char>, Json)>, indentation: nat, increment: nat, compact: bool) -> Seq<Seq<char>>
    decreases fields, 0nat,
{
    Seq::new(
        fields.len(),
        |i: int|
            if 0 <= i < fields.len() {
                pad(
                    render_field(fields[i].0, fields[i].1, indentation, increment, compact),
                    indentation,
                )
            } else {
                Seq::empty()
            },
    )
}

/// An element of an array, to stand at `indentation`. With `compact`, an
/// object of one field gets braces of its own, so that it cannot be taken for
/// a plain assignment.
pub open spec fn render_element(element: Json, indentation: nat, increment: nat, compact: bool) -> Seq<char>
    decreases element, 1nat,
{
    if compact && element.is_single() {
        block(
            "{"@,
            seq![pad(render(element, indentation, increment, compact), indentation + increment)],
            "}"@,
            indentation,
        )
    } else {
        render(element, indentation, increment, compact)
    }
}

/// A field of an object, to stand at `indentation`: an assignment, or with
/// `compact` and an object of one field as its value, one more step of a
/// dotted path.
pub open spec fn render_field(key: Seq<char>, value: Json, indentation: nat, increment: nat, compact: bool) -> Seq<char>
    decreases value, 1nat,
{
    if compact && value.is_single() {
        escape_key(key) + "."@ + render(value, indentation, increment, compact)
    } else {
        escape_key(key) + " = "@ + render(value, indentation, increment, compact) + ";"@
    }
}

/// Whether every margin that `render` computes for these arguments is a
/// `usize`.
pub open spec fn fits(value: Json, indentation: nat, increment: nat, compact: bool) -> bool
    decreases value,
{
    match value {
        Json::Array(items) => items.len() > 0 ==> {
            &&& indentation + increment <= usize::MAX
            &&& forall|i: int|
                0 <= i < items.len() ==> {
                    &&& fits(#[trigger] items[i], indentation + increment, increment, compact)
                    &&& compact && items[i].is_single() ==> indentation + increment + increment
                        <= usize::MAX
                }
        },
        Json::Object(fields) => if fields.len() == 0 {
            true
        } else if fields.len() == 1 && compact {
            fits(fields[0].1, indentation, increment, compact)
        } else {
            &&& indentation + increment <= usize::MAX
            &&& forall|i: int|
                0 <= i < fields.len() ==> fits(
                    (#[trigger] fields[i]).1,
                    indentation + increment,
                    increment,
                    compact,
                )
        },
        _ => true,
    }
}

/// An array without elements is written `[ ]` and an object without fields
/// `{ }`, whatever the margins and with or without folding.
pub proof fn theorem_empty_containers(value: Json, indentation: nat, increment: nat, compact: bool)
    ensures
        value matches Json::Array(items) && items.len() == 0 ==> render(value, indentation, increment, compact)
            == seq!['[', ' ', ']'],
        value matches Json::Object(fields) && fields.len() == 0 ==> render(
            value,
            indentation,
            increment,
            compact,
        ) == seq!['{', ' ', '}'],
{
    reveal_strlit("[ ]");
    reveal_strlit("{ }");
    assert("[ ]"@ =~= seq!['[', ' ', ']']);
    assert("{ }"@ =~= seq!['{', ' ', '}']);
}

/// Tells whether `to_nix` can render `value` with these settings, that is,
/// whether every margin it would compute is a `usize`.
pub fn fits_within(value: &JsonValue, indentation: usize, indentation_increment: usize, compact_set_keys: bool) -> (within: bool)
    ensures
        within == fits(value@, indentation as nat, indentation_increment as nat, compact_set_keys),
    decreases value,
{
    match value {
        JsonValue::Array(items) => {
            if items.len() == 0 {
                return true;
            }
            let inner = match indentation.checked_add(indentation_increment) {
                Some(sum) => sum,
                None => {
                    return false;
                },
            };
            let mut i: usize = 0;
            while i < items.len()
                invariant
                    i <= items.len(),
                    inner == indentation + indentation_increment,
                    value@ is Array,
                    value@->Array_0.len() == items.len(),
                    forall|k: int| 0 <= k < items.len() ==> value@->Array_0[k] == items[k]@,
                    *value == JsonValue::Array(*items),
                    forall|k: int|
                        0 <= k < i ==> {
                            &&& fits(
                                #[trigger] value@->Array_0[k],
                                inner as nat,
                                indentation_increment as nat,
                                compact_set_keys,
                            )
                            &&& compact_set_keys && value@->Array_0[k].is_single() ==> inner
                                + indentation_increment <= usize::MAX
                        },
                decreases items.len() - i,
            {
                assert(value@->Array_0[i as int] == items[i as int]@);
                if !fits_within(&items[i], inner, indentation_increment, compact_set_keys) {
                    return false;
                }
                if compact_set_keys && items[i].is_single() && inner.checked_add(
                    indentation_increment,
                ).is_none() {
                    return false;
                }
                i += 1;
            }
            true
        },
        JsonValue::Object(fields) => {
            if fields.len() == 0 {
                return true;
            }
            if fields.len() == 1 && compact_set_keys {
                assert(value@->Object_0[0] == (fields[0].0@, fields[0].1@));
                return fits_within(&fields[0].1, indentation, indentation_increment, compact_set_keys);
            }
            let inner = match indentation.checked_add(indentation_increment) {
                Some(sum) => sum,
                None => {
                    return false;
                },
            };
            let mut i: usize = 0;
            while i < fields.len()
                invariant
                    i <= fields.len(),
                    inner == indentation + indentation_increment,
                    value@ is Object,
                    value@->Object_0.len() == fields.len(),
                    forall|k: int|
                        0 <= k < fields.len() ==> value@->Object_0[k] == (fields[k].0@, fields[k].1@),
                    *value == JsonValue::Object(*fields),
                    !(fields.len() == 1 && compact_set_keys),
                    forall|k: int|
                        0 <= k < i ==> fits(
                            (#[trigger] value@->Object_0[k]).1,
                            inner as nat,
                            indentation_increment as nat,
                            compact_set_keys,
                        ),
                decreases fields.len() - i,
            {
                assert(value@->Object_0[i as int] == (fields[i as int].0@, fields[i as int].1@));
                if !fits_within(&fields[i].1, inner, indentation_increment, compact_set_keys) {
                    return false;
                }
                i += 1;
            }
            true
        },
        _ => true,
    }
}

/// `join_lines` after one more line.
proof fn lemma_join_push(lines: Seq<Seq<char>>, line: Seq<char>)
    ensures
        join_lines(lines.push(line)) == if lines.len() == 0 {
            line
        } else {
            join_lines(lines) + "\n"@ + line
        },
{
    assert(lines.push(line).drop_last() =~= lines);
}

/// Adds `entry`, moved right by `width`, as the next line of the block that
/// `out` holds so far.
fn push_line(out: &mut String, entry: &str, width: usize, first: bool, Ghost(head): Ghost<Seq<char>>, Ghost(lines): Ghost<Seq<Seq<char>>>)
    requires
        first == (lines.len() == 0),
        old(out)@ == head + "\n"@ + join_lines(lines),
    ensures
        final(out)@ == head + "\n"@ + join_lines(lines.push(pad(entry@, width as nat))),
{
    if !first {
        out.append("\n");
    }
    let line = indent(entry, width);
    out.append(line.as_str());
    proof {
        lemma_join_push(lines, pad(entry@, width as nat));
        let body = join_lines(lines);
        let last = pad(entry@, width as nat);
        if first {
            assert(body =~= Seq::<char>::empty());
            assert(head + "\n"@ + body + last =~= head + "\n"@ + last);
        } else {
            assert(head + "\n"@ + body + "\n"@ + last =~= head + "\n"@ + (body + "\n"@ + last));
        }
    }
}

/// Ends the block that `out` holds with `close` on a line of its own.
fn close_block(out: &mut String, close: &str, indentation: usize)
    ensures
        final(out)@ == old(out)@ + "\n"@ + pad(close@, indentation as nat),
{
    out.append("\n");
    let line = indent(close, indentation);
    out.append(line.as_str());
}

/// Renders `value` as a Nix expression. The first line of the result has no
/// margin; the lines below it stand at `indentation` or deeper. The margins
/// have to fit in a `usize`, which `fits_within` tells. The call goes as deep
/// as `value` is nested.
pub fn to_nix(value: &JsonValue, indentation: usize, indentation_increment: usize, compact_set_keys: bool) -> (result: String)
    requires
        fits(value@, indentation as nat, indentation_increment as nat, compact_set_keys),
    ensures
        result@ == render(value@, indentation as nat, indentation_increment as nat, compact_set_keys),
    decreases value, 0nat,
{
    match value {
        JsonValue::Null => "null".to_owned(),
        JsonValue::Bool(flag) => if *flag {
            "true".to_owned()
        } else {
            "false".to_owned()
        },
        JsonValue::Number(text) => text.clone(),
        JsonValue::String(text) => {
            let mut result = "\"".to_owned();
            result.append(text.as_str());
            result.append("\"");
            result
        },
        JsonValue::Array(items) => {
            if items.len() == 0 {
                return "[ ]".to_owned();
            }
            let inner = indentation + indentation_increment;
            let mut result = "[".to_owned();
            result.append("\n");
            let ghost mut lines: Seq<Seq<char>> = Seq::empty();
            let mut i: usize = 0;
            while i < items.len()
                invariant
                    i <= items.len(),
                    inner == indentation + indentation_increment,
                    value@ is Array,
                    value@->Array_0.len() == items.len(),
                    forall|k: int| 0 <= k < items.len() ==> value@->Array_0[k] == items[k]@,
                    *value == JsonValue::Array(*items),
                    fits(value@, indentation as nat, indentation_increment as nat, compact_set_keys),
                    lines.len() == i,
                    forall|k: int|
                        0 <= k < i ==> lines[k] == pad(
                            render_element(
                                #[trigger] items[k]@,
                                inner as nat,
                                indentation_increment as nat,
                                compact_set_keys,
                            ),
                            inner as nat,
                        ),
                    result@ == "["@ + "\n"@ + join_lines(lines),
                decreases items.len() - i,
            {
                assert(value@->Array_0[i as int] == items[i as int]@);
                let entry = element_to_nix(&items[i], inner, indentation_increment, compact_set_keys);
                push_line(&mut result, entry.as_str(), inner, i == 0, Ghost("["@), Ghost(lines));
                proof {
                    lines = lines.push(pad(entry@, inner as nat));
                }
                i += 1;
            }
            close_block(&mut result, "]", indentation);
            proof {
                assert(lines =~= element_lines(
                    value@->Array_0,
                    (indentation + indentation_increment) as nat,
                    indentation_increment as nat,
                    compact_set_keys,
                ));
            }
            result
        },
        JsonValue::Object(fields) => {
            if fields.len() == 0 {
                return "{ }".to_owned();
            }
            if fields.len() == 1 && compact_set_keys {
                assert(value@->Object_0[0] == (fields[0].0@, fields[0].1@));
                return field_to_nix(&fields[0].0, &fields[0].1, indentation, indentation_increment, compact_set_keys);
            }
            let inner = indentation + indentation_increment;
            let mut result = "{".to_owned();
            result.append("\n");
            let ghost mut lines: Seq<Seq<char>> = Seq::empty();
            let mut i: usize = 0;
            while i < fields.len()
                invariant
                    i <= fields.len(),
                    inner == indentation + indentation_increment,
                    value@ is Object,
                    value@->Object_0.len() == fields.len(),
                    forall|k: int|
                        0 <= k < fields.len() ==> value@->Object_0[k] == (fields[k].0@, fields[k].1@),
                    *value == JsonValue::Object(*fields),
                    !(fields.len() == 1 && compact_set_keys),
                    fits(value@, indentation as nat, indentation_increment as nat, compact_set_keys),
                    lines.len() == i,
                    forall|k: int|
                        0 <= k < i ==> lines[k] == pad(
                            render_field(
                                (#[trigger] fields[k]).0@,
                                fields[k].1@,
                                inner as nat,
                                indentation_increment as nat,
                                compact_set_keys,
                            ),
                            inner as nat,
                        ),
                    result@ == "{"@ + "\n"@ + join_lines(lines),
                decreases fields.len() - i,
            {
                assert(value@->Object_0[i as int] == (fields[i as int].0@, fields[i as int].1@));
                let entry = field_to_nix(&fields[i].0, &fields[i].1, inner, indentation_increment, compact_set_keys);
                push_line(&mut result, entry.as_str(), inner, i == 0, Ghost("{"@), Ghost(lines));
                proof {
                    lines = lines.push(pad(entry@, inner as nat));
                }
                i += 1;
            }
            close_block(&mut result, "}", indentation);
            proof {
                assert(lines =~= field_lines(
                    value@->Object_0,
                    (indentation + indentation_increment) as nat,
                    indentation_increment as nat,
                    compact_set_keys,
                ));
            }
            result
        },
    }
}

/// Renders an element of an array that stands at `indentation`.
fn element_to_nix(element: &JsonValue, indentation: usize, indentation_increment: usize, compact_set_keys: bool) -> (result: String)
    requires
        fits(element@, indentation as nat, indentation_increment as nat, compact_set_keys),
        compact_set_keys && element@.is_single() ==> indentation + indentation_increment <= usize::MAX,
    ensures
        result@ == render_element(element@, indentation as nat, indentation_increment as nat, compact_set_keys),
    decreases element, 1nat,
{
    let inside = to_nix(element, indentation, indentation_increment, compact_set_keys);
    if compact_set_keys && element.is_single() {
        let mut result = "{".to_owned();
        result.append("\n");
        proof {
            assert(join_lines(Seq::<Seq<char>>::empty()) =~= Seq::<char>::empty());
            assert("{"@ + "\n"@ + join_lines(Seq::<Seq<char>>::empty()) =~= "{"@ + "\n"@);
        }
        push_line(&mut result, inside.as_str(), indentation + indentation_increment, true, Ghost("{"@), Ghost(Seq::empty()));
        close_block(&mut result, "}", indentation);
        proof {
            assert(Seq::<Seq<char>>::empty().push(pad(inside@, (indentation + indentation_increment) as nat))
                =~= seq![pad(inside@, (indentation + indentation_increment) as nat)]);
        }
        result
    } else {
        inside
    }
}

/// Renders a field of an object that stands at `indentation`.
fn field_to_nix(key: &String, value: &JsonValue, indentation: usize, indentation_increment: usize, compact_set_keys: bool) -> (result: String)
    requires
        fits(value@, indentation as nat, indentation_increment as nat, compact_set_keys),
    ensures
        result@ == render_field(key@, value@, indentation as nat, indentation_increment as nat, compact_set_keys),
    decreases value, 1nat,
{
    let mut result = escape_attribute_set_key(key.as_str());
    let inside = to_nix(value, indentation, indentation_increment, compact_set_keys);
    if compact_set_keys && value.is_single() {
        result.append(".");
        result.append(inside.as_str());
    } else {
        result.append(" = ");
        result.append(inside.as_str());
        result.append(";");
    }
    result
}

} // verus!
