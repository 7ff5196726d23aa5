//! The left margin of each line of a rendering, and the depth it answers to.

use crate::escape::escape_key;
use crate::indent::{pad, spaces};
use crate::render::{element_lines, field_lines, join_lines, render, render_element, render_field};
use crate::tally::{
    count, is_closer, lacks, lemma_count_add, lemma_count_escape_key, lemma_count_lacks, lemma_count_one,
    lemma_count_pieces, lemma_join_take,
};
use crate::value::Json;
use crate::{document, Json2NixConfig};
use vstd::prelude::*;

verus! {

/// How many spaces stand in `text` at `from` and right after it.
pub open spec fn leading_spaces(text: Seq<char>, from: int) -> nat
    decreases text.len() - from,
{
    if 0 <= from < text.len() && text[from] == ' ' {
        1 + leading_spaces(text, from + 1)
    } else {
        0
    }
}

/// How many brackets and braces `text` opens and does not close.
pub open spec fn nesting(text: Seq<char>) -> int {
    count(text, '[') + count(text, '{') - count(text, ']') - count(text, '}')
}

/// Whether a line begins at `at`: any line but the first.
pub open spec fn begins_line(text: Seq<char>, at: int) -> bool {
    0 < at < text.len() && text[at - 1] == '\n'
}

/// The depth of the line that begins at `at`: the brackets and braces open
/// before it, one less where the line begins with a closer, which stands at
/// the depth of its opener.
pub open spec fn line_depth(text: Seq<char>, at: int) -> int {
    let first = at + leading_spaces(text, at);
    nesting(text.take(at)) - if first < text.len() && is_closer(text[first]) {
        1int
    } else {
        0int
    }
}

/// Whether the line that begins at `at` has the margin of its depth.
pub open spec fn line_fits(text: Seq<char>, at: int, base: nat, increment: nat) -> bool {
    leading_spaces(text, at) == base + increment * line_depth(text, at)
}

/// The line at `at` has the margin of its depth, and something stands on it
/// after the margin.
pub open spec fn line_settled(text: Seq<char>, at: int, base: nat, increment: nat) -> bool {
    at + leading_spaces(text, at) < text.len() && line_fits(text, at, base, increment)
}

/// Every line but the first is settled.
pub open spec fn laid(text: Seq<char>, base: nat, increment: nat) -> bool {
    forall|at: int| #[trigger] begins_line(text, at) ==> line_settled(text, at, base, increment)
}

/// A piece of a rendering that leaves `level` brackets open: it begins with
/// something that is no space, line break or closer, does not end in a line
/// break, and its lines are settled.
pub open spec fn shaped(text: Seq<char>, level: int, base: nat, increment: nat) -> bool {
    &&& text.len() > 0
    &&& text[0] != ' '
    &&& text[0] != '\n'
    &&& !is_closer(text[0])
    &&& text.last() != '\n'
    &&& nesting(text) == level
    &&& laid(text, base, increment)
}

/// What a text in two parts leaves open is what its parts leave open.
proof fn lemma_nesting_add(left: Seq<char>, right: Seq<char>)
    ensures
        nesting(left + right) == nesting(left) + nesting(right),
{
    lemma_count_add(left, right, '[');
    lemma_count_add(left, right, '{');
    lemma_count_add(left, right, ']');
    lemma_count_add(left, right, '}');
}

/// A text without brackets and braces leaves nothing open.
proof fn lemma_nesting_calm(text: Seq<char>)
    requires
        lacks(text, '['),
        lacks(text, '{'),
        lacks(text, ']'),
        lacks(text, '}'),
    ensures
        nesting(text) == 0,
{
    lemma_count_lacks(text, '[');
    lemma_count_lacks(text, '{');
    lemma_count_lacks(text, ']');
    lemma_count_lacks(text, '}');
}

/// The spaces at a place inside `body` are the same with text around it, as
/// long as they end inside `body`.
proof fn lemma_leading_inside(head: Seq<char>, body: Seq<char>, tail: Seq<char>, at: int)
    requires
        0 <= at,
        at + leading_spaces(body, at) < body.len(),
    ensures
        leading_spaces(head + body + tail, head.len() + at) == leading_spaces(body, at),
    decreases body.len() - at,
{
    let whole = head + body + tail;
    assert(whole[head.len() + at] == body[at]);
    if body[at] == ' ' {
        lemma_leading_inside(head, body, tail, at + 1);
    }
}

/// Before a text that begins with something else, a run of spaces counts in
/// full.
proof fn lemma_leading_run(width: nat, body: Seq<char>, from: int)
    requires
        0 <= from <= width,
        body.len() > 0,
        body[0] != ' ',
    ensures
        leading_spaces(pad(body, width), from) == width - from,
    decreases width - from,
{
    let whole = pad(body, width);
    if from < width {
        assert(whole[from] == ' ');
        lemma_leading_run(width, body, from + 1);
    } else {
        assert(whole[from] == body[0]);
    }
}

/// A line inside `body` that is settled there is settled with text around
/// `body`, at the base that the brackets open in `head` ask for.
proof fn lemma_line_inside(head: Seq<char>, body: Seq<char>, tail: Seq<char>, at: int, base: nat, inner: nat, increment: nat)
    requires
        begins_line(body, at),
        line_settled(body, at, inner, increment),
        inner == base + increment * nesting(head),
    ensures
        begins_line(head + body + tail, head.len() + at),
        line_settled(head + body + tail, head.len() + at, base, increment),
{
    let whole = head + body + tail;
    let run = leading_spaces(body, at);
    lemma_leading_inside(head, body, tail, at);
    assert(whole[head.len() + at - 1] == body[at - 1]);
    assert(whole[head.len() + at + run] == body[at + run]);
    assert(whole.take(head.len() + at) =~= head + body.take(at));
    lemma_nesting_add(head, body.take(at));
    let outer = nesting(head);
    let depth = line_depth(body, at);
    assert(line_depth(whole, head.len() + at) == outer + depth);
    assert(increment * (outer + depth) == increment * outer + increment * depth) by (nonlinear_arith);
}

/// What is laid stays laid when text is put before and after it, as far as
/// its own lines go.
proof fn lemma_laid_inside(head: Seq<char>, body: Seq<char>, tail: Seq<char>, base: nat, inner: nat, increment: nat)
    requires
        laid(body, inner, increment),
        inner == base + increment * nesting(head),
    ensures
        forall|at: int|
            head.len() < at < head.len() + body.len() && #[trigger] begins_line(head + body + tail, at)
                ==> line_settled(head + body + tail, at, base, increment),
{
    let whole = head + body + tail;
    assert forall|at: int|
        head.len() < at < head.len() + body.len() && #[trigger] begins_line(whole, at) implies line_settled(
        whole,
        at,
        base,
        increment,
    ) by {
        let inside = at - head.len();
        assert(whole[at - 1] == body[inside - 1]);
        assert(begins_line(body, inside));
        lemma_line_inside(head, body, tail, inside, base, inner, increment);
    }
}

/// Text on the same line before and after a shaped piece leaves it shaped.
proof fn lemma_shaped_inline(head: Seq<char>, body: Seq<char>, tail: Seq<char>, base: nat, increment: nat)
    requires
        head.len() > 0,
        head[0] != ' ',
        !is_closer(head[0]),
        lacks(head, '\n'),
        nesting(head) == 0,
        shaped(body, 0, base, increment),
        lacks(tail, '\n'),
        nesting(tail) == 0,
    ensures
        shaped(head + body + tail, 0, base, increment),
{
    let whole = head + body + tail;
    lemma_nesting_add(head, body);
    lemma_nesting_add(head + body, tail);
    assert(whole[0] == head[0]);
    if tail.len() > 0 {
        assert(whole.last() == tail.last());
    } else {
        assert(whole.last() == body.last());
    }
    assert(base == base + increment * nesting(head)) by (nonlinear_arith)
        requires
            nesting(head) == 0,
    ;
    lemma_laid_inside(head, body, tail, base, base, increment);
    assert forall|at: int| #[trigger] begins_line(whole, at) implies line_settled(whole, at, base, increment) by {
        if at <= head.len() {
            assert(whole[at - 1] == head[at - 1]);
        } else if at < head.len() + body.len() {
        } else if at == head.len() + body.len() {
            assert(whole[at - 1] == body.last());
        } else {
            assert(whole[at - 1] == tail[at - 1 - head.len() - body.len()]);
        }
    }
}

/// One more entry on a line of its own, a level deeper, leaves an open block
/// shaped and open.
proof fn lemma_shaped_entry(prefix: Seq<char>, entry: Seq<char>, base: nat, increment: nat)
    requires
        shaped(prefix, 1, base, increment),
        shaped(entry, 0, base + increment, increment),
    ensures
        shaped(prefix + "\n"@ + pad(entry, base + increment), 1, base, increment),
{
    reveal_strlit("\n");
    assert("\n"@ =~= seq!['\n']);
    let width = base + increment;
    let head = prefix + "\n"@ + spaces(width);
    let whole = prefix + "\n"@ + pad(entry, width);
    let empty = Seq::<char>::empty();
    assert(whole =~= head + entry + empty);
    assert(whole =~= empty + prefix + ("\n"@ + pad(entry, width)));
    // What the pieces open.
    lemma_count_one('\n', '[');
    lemma_count_one('\n', '{');
    lemma_count_one('\n', ']');
    lemma_count_one('\n', '}');
    lemma_nesting_calm(spaces(width));
    lemma_nesting_add(prefix, "\n"@);
    lemma_nesting_add(prefix + "\n"@, spaces(width));
    lemma_nesting_add(head, entry);
    lemma_nesting_add(head + entry, empty);
    assert(nesting(empty) == 0);
    assert(whole[0] == prefix[0]);
    assert(whole.last() == entry.last());
    // The lines of the prefix and of the entry.
    assert(base == base + increment * nesting(empty)) by (nonlinear_arith)
        requires
            nesting(empty) == 0,
    ;
    lemma_laid_inside(empty, prefix, "\n"@ + pad(entry, width), base, base, increment);
    assert(width == base + increment * nesting(head)) by (nonlinear_arith)
        requires
            nesting(head) == 1,
            width == base + increment,
    ;
    lemma_laid_inside(head, entry, empty, base, width, increment);
    // The line of the entry itself.
    let start: int = prefix.len() as int + 1;
    lemma_leading_run(width, entry, 0);
    assert(0 + leading_spaces(pad(entry, width), 0) < pad(entry, width).len());
    lemma_leading_inside(prefix + "\n"@, pad(entry, width), empty, 0);
    assert(whole =~= prefix + "\n"@ + pad(entry, width) + empty);
    assert(leading_spaces(whole, start) == width);
    assert(whole.take(start) =~= prefix + "\n"@);
    assert(whole[start + width] == entry[0]);
    assert(line_depth(whole, start) == 1);
    assert(increment * 1 == increment) by (nonlinear_arith);
    assert(line_settled(whole, start, base, increment));
    assert forall|at: int| #[trigger] begins_line(whole, at) implies line_settled(whole, at, base, increment) by {
        if at < prefix.len() {
            assert(whole[at - 1] == prefix[at - 1]);
            assert(begins_line(empty + prefix + ("\n"@ + pad(entry, width)), at));
        } else if at == prefix.len() {
            assert(whole[at - 1] == prefix.last());
        } else if at == start {
        } else if at <= head.len() {
            assert(whole[at - 1] == spaces(width)[at - 1 - start]);
        } else {
            assert(begins_line(head + entry + empty, at));
        }
    }
}

/// The closer on a line of its own, at the level of the opener, ends an open
/// block and leaves it shaped.
proof fn lemma_shaped_close(prefix: Seq<char>, closer: char, base: nat, increment: nat)
    requires
        shaped(prefix, 1, base, increment),
        is_closer(closer),
    ensures
        shaped(prefix + "\n"@ + pad(seq![closer], base), 0, base, increment),
{
    reveal_strlit("\n");
    assert("\n"@ =~= seq!['\n']);
    let end = seq![closer];
    let whole = prefix + "\n"@ + pad(end, base);
    let empty = Seq::<char>::empty();
    assert(whole =~= empty + prefix + ("\n"@ + pad(end, base)));
    lemma_count_one('\n', '[');
    lemma_count_one('\n', '{');
    lemma_count_one('\n', ']');
    lemma_count_one('\n', '}');
    lemma_count_one(closer, '[');
    lemma_count_one(closer, '{');
    lemma_count_one(closer, ']');
    lemma_count_one(closer, '}');
    lemma_nesting_calm(spaces(base));
    lemma_nesting_add(prefix, "\n"@);
    lemma_nesting_add(spaces(base), end);
    lemma_nesting_add(prefix + "\n"@, pad(end, base));
    assert(nesting(empty) == 0);
    assert(whole[0] == prefix[0]);
    assert(whole.last() == closer);
    assert(base == base + increment * nesting(empty)) by (nonlinear_arith)
        requires
            nesting(empty) == 0,
    ;
    lemma_laid_inside(empty, prefix, "\n"@ + pad(end, base), base, base, increment);
    let start: int = prefix.len() as int + 1;
    lemma_leading_run(base, end, 0);
    lemma_leading_inside(prefix + "\n"@, pad(end, base), empty, 0);
    assert(whole =~= prefix + "\n"@ + pad(end, base) + empty);
    assert(leading_spaces(whole, start) == base);
    assert(whole.take(start) =~= prefix + "\n"@);
    assert(whole[start + base] == closer);
    assert(line_depth(whole, start) == 0);
    assert(increment * 0 == 0) by (nonlinear_arith);
    assert(line_settled(whole, start, base, increment));
    assert forall|at: int| #[trigger] begins_line(whole, at) implies line_settled(whole, at, base, increment) by {
        if at < prefix.len() {
            assert(whole[at - 1] == prefix[at - 1]);
            assert(begins_line(empty + prefix + ("\n"@ + pad(end, base)), at));
        } else if at == prefix.len() {
            assert(whole[at - 1] == prefix.last());
        } else if at == start {
        } else {
            assert(whole[at - 1] == spaces(base)[at - 1 - start]);
        }
    }
}

/// A text without line break that closes as many brackets and braces as it
/// opens.
pub open spec fn is_calm(text: Seq<char>) -> bool {
    lacks(text, '\n') && nesting(text) == 0
}

/// Whether `value` is written on one line: anything but an array with
/// elements or an object with fields, and with `compact` also an object of one
/// field whose value is written on one line.
pub open spec fn one_line(value: Json, compact: bool) -> bool
    decreases value,
{
    match value {
        Json::Array(items) => items.len() == 0,
        Json::Object(fields) => fields.len() == 0 || (compact && fields.len() == 1 && one_line(
            fields[0].1,
            compact,
        )),
        _ => true,
    }
}

/// The values whose lines and depths can be read off the rendering: every
/// text in them is calm, every number begins with something that is no space
/// and no closer, and with `compact` every element of an array that is an
/// object of one field is written on one line.
pub open spec fn aligns(value: Json, compact: bool) -> bool
    decreases value,
{
    match value {
        Json::Number(text) => is_calm(text) && text.len() > 0 && text[0] != ' ' && !is_closer(text[0]),
        Json::String(text) => is_calm(text),
        Json::Array(items) => forall|i: int|
            0 <= i < items.len() ==> {
                &&& aligns(#[trigger] items[i], compact)
                &&& compact && items[i].is_single() ==> one_line(items[i], compact)
            },
        Json::Object(fields) => forall|i: int|
            0 <= i < fields.len() ==> is_calm((#[trigger] fields[i]).0) && aligns(fields[i].1, compact),
        _ => true,
    }
}

proof fn lemma_calm_counts(text: Seq<char>)
    requires
        is_calm(text),
    ensures
        count(text, '\n') == 0,
        nesting(text) == 0,
{
    lemma_count_lacks(text, '\n');
}

/// A text on one line that opens nothing is shaped at any base.
proof fn lemma_shaped_flat(text: Seq<char>, base: nat, increment: nat)
    requires
        text.len() > 0,
        text[0] != ' ',
        !is_closer(text[0]),
        count(text, '\n') == 0,
        nesting(text) == 0,
    ensures
        shaped(text, 0, base, increment),
{
    lemma_count_lacks(text, '\n');
}

/// An opener alone is an open block.
proof fn lemma_shaped_opener(base: nat, increment: nat)
    ensures
        shaped("["@, 1, base, increment),
        shaped("{"@, 1, base, increment),
{
    reveal_strlit("[");
    reveal_strlit("{");
    lemma_count_pieces('[');
    lemma_count_pieces('{');
    lemma_count_pieces(']');
    lemma_count_pieces('}');
}

/// The attribute name of a calm key is on one line, opens nothing, and begins
/// with a letter or a quote.
proof fn lemma_name_calm(key: Seq<char>)
    requires
        is_calm(key),
    ensures
        escape_key(key).len() > 0,
        escape_key(key)[0] != ' ',
        !is_closer(escape_key(key)[0]),
        count(escape_key(key), '\n') == 0,
        nesting(escape_key(key)) == 0,
{
    lemma_calm_counts(key);
    lemma_count_escape_key(key, '\n');
    lemma_count_escape_key(key, '[');
    lemma_count_escape_key(key, '{');
    lemma_count_escape_key(key, ']');
    lemma_count_escape_key(key, '}');
}

/// What is written on one line holds no line break.
proof fn lemma_render_flat(value: Json, indentation: nat, increment: nat, compact: bool)
    requires
        aligns(value, compact),
        one_line(value, compact),
    ensures
        count(render(value, indentation, increment, compact), '\n') == 0,
    decreases value,
{
    lemma_count_pieces('\n');
    match value {
        Json::Null => {},
        Json::Bool(_) => {},
        Json::Number(text) => {
            lemma_calm_counts(text);
        },
        Json::String(text) => {
            lemma_calm_counts(text);
            lemma_count_add("\""@, text, '\n');
            lemma_count_add("\""@ + text, "\""@, '\n');
        },
        Json::Array(_) => {},
        Json::Object(fields) => {
            if fields.len() > 0 {
                let key = fields[0].0;
                let child = fields[0].1;
                let name = escape_key(key);
                let inside = render(child, indentation, increment, compact);
                lemma_render_flat(child, indentation, increment, compact);
                lemma_name_calm(key);
                if child.is_single() {
                    lemma_count_add(name, "."@, '\n');
                    lemma_count_add(name + "."@, inside, '\n');
                } else {
                    lemma_count_add(name, " = "@, '\n');
                    lemma_count_add(name + " = "@, inside, '\n');
                    lemma_count_add(name + " = "@ + inside, ";"@, '\n');
                }
            }
        },
    }
}

/// The rendering of a value that aligns is shaped at its indentation.
proof fn lemma_render_shaped(value: Json, base: nat, increment: nat, compact: bool)
    requires
        aligns(value, compact),
    ensures
        shaped(render(value, base, increment, compact), 0, base, increment),
    decreases value, 0nat, 0nat,
{
    lemma_count_pieces('\n');
    lemma_count_pieces('[');
    lemma_count_pieces('{');
    lemma_count_pieces(']');
    lemma_count_pieces('}');
    match value {
        Json::Null => {
            reveal_strlit("null");
            lemma_shaped_flat("null"@, base, increment);
        },
        Json::Bool(flag) => {
            reveal_strlit("true");
            reveal_strlit("false");
            lemma_shaped_flat("true"@, base, increment);
            lemma_shaped_flat("false"@, base, increment);
        },
        Json::Number(text) => {
            lemma_calm_counts(text);
            lemma_shaped_flat(text, base, increment);
        },
        Json::String(text) => {
            reveal_strlit("\"");
            let whole = "\""@ + text + "\""@;
            lemma_calm_counts(text);
            lemma_count_add("\""@, text, '\n');
            lemma_count_add("\""@ + text, "\""@, '\n');
            lemma_nesting_add("\""@, text);
            lemma_nesting_add("\""@ + text, "\""@);
            assert(whole[0] == '"');
            lemma_shaped_flat(whole, base, increment);
        },
        Json::Array(items) => {
            if items.len() == 0 {
                reveal_strlit("[ ]");
                lemma_shaped_flat("[ ]"@, base, increment);
            } else {
                reveal_strlit("]");
                assert("]"@ =~= seq![']']);
                let lines = element_lines(items, base + increment, increment, compact);
                lemma_elements_shaped(items, items.len(), base, increment, compact);
                assert(lines.take(items.len() as int) =~= lines);
                lemma_shaped_close("["@ + "\n"@ + join_lines(lines), ']', base, increment);
            }
        },
        Json::Object(fields) => {
            if fields.len() == 0 {
                reveal_strlit("{ }");
                lemma_shaped_flat("{ }"@, base, increment);
            } else if fields.len() == 1 && compact {
                lemma_field_shaped(fields[0].0, fields[0].1, base, increment, compact);
            } else {
                reveal_strlit("}");
                assert("}"@ =~= seq!['}']);
                let lines = field_lines(fields, base + increment, increment, compact);
                lemma_fields_shaped(fields, fields.len(), base, increment, compact);
                assert(lines.take(fields.len() as int) =~= lines);
                lemma_shaped_close("{"@ + "\n"@ + join_lines(lines), '}', base, increment);
            }
        },
    }
}

proof fn lemma_element_shaped(element: Json, base: nat, increment: nat, compact: bool)
    requires
        aligns(element, compact),
        compact && element.is_single() ==> one_line(element, compact),
    ensures
        shaped(render_element(element, base, increment, compact), 0, base, increment),
    decreases element, 1nat, 0nat,
{
    lemma_render_shaped(element, base, increment, compact);
    if compact && element.is_single() {
        reveal_strlit("}");
        assert("}"@ =~= seq!['}']);
        let inside = render(element, base, increment, compact);
        lemma_render_flat(element, base, increment, compact);
        lemma_shaped_flat(inside, base + increment, increment);
        lemma_shaped_opener(base, increment);
        lemma_shaped_entry("{"@, inside, base, increment);
        lemma_shaped_close("{"@ + "\n"@ + pad(inside, base + increment), '}', base, increment);
        assert(join_lines(seq![pad(inside, base + increment)]) == pad(inside, base + increment));
    }
}

proof fn lemma_field_shaped(key: Seq<char>, value: Json, base: nat, increment: nat, compact: bool)
    requires
        is_calm(key),
        aligns(value, compact),
    ensures
        shaped(render_field(key, value, base, increment, compact), 0, base, increment),
    decreases value, 1nat, 0nat,
{
    lemma_render_shaped(value, base, increment, compact);
    lemma_name_calm(key);
    lemma_count_pieces('\n');
    lemma_count_pieces('[');
    lemma_count_pieces('{');
    lemma_count_pieces(']');
    lemma_count_pieces('}');
    let name = escape_key(key);
    let inside = render(value, base, increment, compact);
    let empty = Seq::<char>::empty();
    if compact && value.is_single() {
        let head = name + "."@;
        lemma_count_add(name, "."@, '\n');
        lemma_nesting_add(name, "."@);
        lemma_count_lacks(head, '\n');
        assert(head[0] == name[0]);
        assert(nesting(empty) == 0);
        lemma_shaped_inline(head, inside, empty, base, increment);
        assert(head + inside + empty =~= name + "."@ + inside);
    } else {
        let head = name + " = "@;
        lemma_count_add(name, " = "@, '\n');
        lemma_nesting_add(name, " = "@);
        lemma_count_lacks(head, '\n');
        lemma_count_lacks(";"@, '\n');
        assert(head[0] == name[0]);
        lemma_shaped_inline(head, inside, ";"@, base, increment);
    }
}

proof fn lemma_elements_shaped(items: Seq<Json>, upto: nat, base: nat, increment: nat, compact: bool)
    requires
        1 <= upto <= items.len(),
        forall|i: int|
            0 <= i < items.len() ==> {
                &&& aligns(#[trigger] items[i], compact)
                &&& compact && items[i].is_single() ==> one_line(items[i], compact)
            },
    ensures
        shaped(
            "["@ + "\n"@ + join_lines(
                element_lines(items, base + increment, increment, compact).take(upto as int),
            ),
            1,
            base,
            increment,
        ),
    decreases items, 0nat, upto,
{
    let lines = element_lines(items, base + increment, increment, compact);
    let last = (upto - 1) as int;
    let entry = render_element(items[last], base + increment, increment, compact);
    assert(aligns(items[last], compact));
    lemma_element_shaped(items[last], base + increment, increment, compact);
    lemma_join_take(lines, upto as int);
    if upto == 1 {
        lemma_shaped_opener(base, increment);
        lemma_shaped_entry("["@, entry, base, increment);
    } else {
        lemma_elements_shaped(items, (upto - 1) as nat, base, increment, compact);
        let before = join_lines(lines.take(last));
        lemma_shaped_entry("["@ + "\n"@ + before, entry, base, increment);
        assert("["@ + "\n"@ + before + "\n"@ + pad(entry, base + increment) =~= "["@ + "\n"@ + (before + "\n"@
            + lines[last]));
    }
}

proof fn lemma_fields_shaped(fields: Seq<(Seq<char>, Json)>, upto: nat, base: nat, increment: nat, compact: bool)
    requires
        1 <= upto <= fields.len(),
        forall|i: int|
            0 <= i < fields.len() ==> is_calm((#[trigger] fields[i]).0) && aligns(fields[i].1, compact),
    ensures
        shaped(
            "{"@ + "\n"@ + join_lines(field_lines(fields, base + increment, increment, compact).take(upto as int)),
            1,
            base,
            increment,
        ),
    decreases fields, 0nat, upto,
{
    let lines = field_lines(fields, base + increment, increment, compact);
    let last = (upto - 1) as int;
    let entry = render_field(fields[last].0, fields[last].1, base + increment, increment, compact);
    assert(is_calm(fields[last].0) && aligns(fields[last].1, compact));
    lemma_field_shaped(fields[last].0, fields[last].1, base + increment, increment, compact);
    lemma_join_take(lines, upto as int);
    if upto == 1 {
        lemma_shaped_opener(base, increment);
        lemma_shaped_entry("{"@, entry, base, increment);
    } else {
        lemma_fields_shaped(fields, (upto - 1) as nat, base, increment, compact);
        let before = join_lines(lines.take(last));
        lemma_shaped_entry("{"@ + "\n"@ + before, entry, base, increment);
        assert("{"@ + "\n"@ + before + "\n"@ + pad(entry, base + increment) =~= "{"@ + "\n"@ + (before + "\n"@
            + lines[last]));
    }
}

/// In the rendering of a value that aligns, every line below the first
/// begins with as many spaces as its depth asks for: the indentation, and the
/// increment once for each bracket or brace that is open there.
pub proof fn theorem_margins(value: Json, indentation: nat, increment: nat, compact: bool)
    requires
        aligns(value, compact),
    ensures
        forall|at: int| #[trigger]
            begins_line(render(value, indentation, increment, compact), at) ==> leading_spaces(
                render(value, indentation, increment, compact),
                at,
            ) == indentation + increment * line_depth(render(value, indentation, increment, compact), at),
{
    lemma_render_shaped(value, indentation, increment, compact);
}

/// In the finished document of a value that aligns, every line, the first
/// too, begins with as many spaces as its depth asks for: the left margin,
/// and the increment once for each bracket or brace that is open there.
pub proof fn theorem_document_margins(tree: Json, config: Json2NixConfig)
    requires
        aligns(tree, config.compact_set_keys),
    ensures
        forall|at: int|
            at == 0 || #[trigger] begins_line(document(tree, config), at) ==> leading_spaces(
                document(tree, config),
                at,
            ) == config.initial_indentation + config.indentation_increment * line_depth(
                document(tree, config),
                at,
            ),
{
    let margin = config.initial_indentation as nat;
    let increment = config.indentation_increment as nat;
    let body = render(tree, margin, increment, config.compact_set_keys);
    let whole = document(tree, config);
    let empty = Seq::<char>::empty();
    lemma_render_shaped(tree, margin, increment, config.compact_set_keys);
    lemma_nesting_calm(spaces(margin));
    assert(whole =~= spaces(margin) + body + empty);
    assert(margin == margin + increment * nesting(spaces(margin))) by (nonlinear_arith)
        requires
            nesting(spaces(margin)) == 0,
    ;
    lemma_laid_inside(spaces(margin), body, empty, margin, margin, increment);
    lemma_leading_run(margin, body, 0);
    assert(whole.take(0) =~= empty);
    assert(nesting(empty) == 0);
    assert(whole[margin as int] == body[0]);
    assert(line_depth(whole, 0) == 0);
    assert(increment * 0 == 0) by (nonlinear_arith);
    assert forall|at: int| at == 0 || #[trigger] begins_line(whole, at) implies leading_spaces(whole, at)
        == margin + increment * line_depth(whole, at) by {
        if at != 0 {
            if at <= margin {
                assert(whole[at - 1] == ' ');
            } else {
                assert(begins_line(spaces(margin) + body + empty, at));
            }
        }
    }
}

} // verus!
