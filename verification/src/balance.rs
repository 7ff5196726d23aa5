//! Brackets and braces in a rendering: each opener has its closer.

use crate::escape::escape_key;
use crate::indent::pad;
use crate::render::{block, element_lines, field_lines, join_lines, render, render_element, render_field};
use crate::tally::{count, lemma_count_add, lemma_count_escape_key, lemma_count_pad, lemma_count_pieces, lemma_join_take};
use crate::value::Json;
use crate::{document, Json2NixConfig};
use vstd::prelude::*;

verus! {

/// How often `ch` occurs in the texts that `value` holds: its numbers, its
/// strings and the keys of its objects.
pub open spec fn text_count(value: Json, ch: char) -> nat
    decreases value, 0nat,
{
    match value {
        Json::Null => 0,
        Json::Bool(_) => 0,
        Json::Number(text) => count(text, ch),
        Json::String(text) => count(text, ch),
        Json::Array(items) => items_text_count(items, items.len(), ch),
        Json::Object(fields) => fields_text_count(fields, fields.len(), ch),
    }
}

/// `text_count` over the first `upto` of `items`.
pub open spec fn items_text_count(items: Seq<Json>, upto: nat, ch: char) -> nat
    decreases items, upto,
{
    if 0 < upto <= items.len() {
        items_text_count(items, (upto - 1) as nat, ch) + text_count(items[upto - 1], ch)
    } else {
        0
    }
}

/// `text_count` over the first `upto` of `fields`, keys included.
pub open spec fn fields_text_count(fields: Seq<(Seq<char>, Json)>, upto: nat, ch: char) -> nat
    decreases fields, upto,
{
    if 0 < upto <= fields.len() {
        fields_text_count(fields, (upto - 1) as nat, ch) + count(fields[upto - 1].0, ch) + text_count(
            fields[upto - 1].1,
            ch,
        )
    } else {
        0
    }
}

/// A bracket with its closer, or a brace with its closer.
pub open spec fn is_pair(opener: char, closer: char) -> bool {
    (opener == '[' && closer == ']') || (opener == '{' && closer == '}')
}

/// By how much the openers in `text` outnumber the closers.
pub open spec fn surplus(text: Seq<char>, opener: char, closer: char) -> int {
    count(text, opener) - count(text, closer)
}

/// By how much the openers in the texts of `value` outnumber the closers.
pub open spec fn text_surplus(value: Json, opener: char, closer: char) -> int {
    text_count(value, opener) - text_count(value, closer)
}

proof fn lemma_surplus_add(left: Seq<char>, right: Seq<char>, opener: char, closer: char)
    ensures
        surplus(left + right, opener, closer) == surplus(left, opener, closer) + surplus(right, opener, closer),
{
    lemma_count_add(left, right, opener);
    lemma_count_add(left, right, closer);
}

/// A block has the surplus of its lines where its opener and closer belong
/// together.
proof fn lemma_surplus_block(open: Seq<char>, lines: Seq<Seq<char>>, close: Seq<char>, indentation: nat, opener: char, closer: char)
    requires
        is_pair(opener, closer),
        (open == "["@ && close == "]"@) || (open == "{"@ && close == "}"@),
    ensures
        surplus(block(open, lines, close, indentation), opener, closer) == surplus(
            join_lines(lines),
            opener,
            closer,
        ),
{
    lemma_count_pieces(opener);
    lemma_count_pieces(closer);
    lemma_count_pad(close, indentation, opener);
    lemma_count_pad(close, indentation, closer);
    let body = join_lines(lines);
    let end = pad(close, indentation);
    lemma_surplus_add(open, "\n"@, opener, closer);
    lemma_surplus_add(open + "\n"@, body, opener, closer);
    lemma_surplus_add(open + "\n"@ + body, "\n"@, opener, closer);
    lemma_surplus_add(open + "\n"@ + body + "\n"@, end, opener, closer);
}

/// The surplus of a rendering is the surplus of the texts rendered: what the
/// formatter writes of its own is balanced.
pub proof fn lemma_render_surplus(value: Json, indentation: nat, increment: nat, compact: bool, opener: char, closer: char)
    requires
        is_pair(opener, closer),
    ensures
        surplus(render(value, indentation, increment, compact), opener, closer) == text_surplus(
            value,
            opener,
            closer,
        ),
    decreases value, 0nat, 0nat,
{
    lemma_count_pieces(opener);
    lemma_count_pieces(closer);
    match value {
        Json::Null => {},
        Json::Bool(_) => {},
        Json::Number(_) => {},
        Json::String(text) => {
            lemma_surplus_add("\""@, text, opener, closer);
            lemma_surplus_add("\""@ + text, "\""@, opener, closer);
        },
        Json::Array(items) => {
            if items.len() > 0 {
                let lines = element_lines(items, indentation + increment, increment, compact);
                lemma_surplus_block("["@, lines, "]"@, indentation, opener, closer);
                lemma_elements_surplus(items, items.len(), indentation + increment, increment, compact, opener, closer);
                assert(lines.take(items.len() as int) =~= lines);
            }
        },
        Json::Object(fields) => {
            if fields.len() == 0 {
            } else if fields.len() == 1 && compact {
                lemma_field_surplus(fields[0].0, fields[0].1, indentation, increment, compact, opener, closer);
                assert(fields_text_count(fields, 0, opener) == 0);
                assert(fields_text_count(fields, 0, closer) == 0);
            } else {
                let lines = field_lines(fields, indentation + increment, increment, compact);
                lemma_surplus_block("{"@, lines, "}"@, indentation, opener, closer);
                lemma_fields_surplus(fields, fields.len(), indentation + increment, increment, compact, opener, closer);
                assert(lines.take(fields.len() as int) =~= lines);
            }
        },
    }
}

proof fn lemma_element_surplus(element: Json, indentation: nat, increment: nat, compact: bool, opener: char, closer: char)
    requires
        is_pair(opener, closer),
    ensures
        surplus(render_element(element, indentation, increment, compact), opener, closer) == text_surplus(
            element,
            opener,
            closer,
        ),
    decreases element, 1nat, 0nat,
{
    lemma_render_surplus(element, indentation, increment, compact, opener, closer);
    if compact && element.is_single() {
        let inside = pad(render(element, indentation, increment, compact), indentation + increment);
        lemma_surplus_block("{"@, seq![inside], "}"@, indentation, opener, closer);
        lemma_count_pad(render(element, indentation, increment, compact), indentation + increment, opener);
        lemma_count_pad(render(element, indentation, increment, compact), indentation + increment, closer);
    }
}

proof fn lemma_field_surplus(key: Seq<char>, value: Json, indentation: nat, increment: nat, compact: bool, opener: char, closer: char)
    requires
        is_pair(opener, closer),
    ensures
        surplus(render_field(key, value, indentation, increment, compact), opener, closer) == surplus(
            key,
            opener,
            closer,
        ) + text_surplus(value, opener, closer),
    decreases value, 1nat, 0nat,
{
    lemma_render_surplus(value, indentation, increment, compact, opener, closer);
    lemma_count_pieces(opener);
    lemma_count_pieces(closer);
    lemma_count_escape_key(key, opener);
    lemma_count_escape_key(key, closer);
    let name = escape_key(key);
    let inside = render(value, indentation, increment, compact);
    if compact && value.is_single() {
        lemma_surplus_add(name, "."@, opener, closer);
        lemma_surplus_add(name + "."@, inside, opener, closer);
    } else {
        lemma_surplus_add(name, " = "@, opener, closer);
        lemma_surplus_add(name + " = "@, inside, opener, closer);
        lemma_surplus_add(name + " = "@ + inside, ";"@, opener, closer);
    }
}

proof fn lemma_elements_surplus(items: Seq<Json>, upto: nat, indentation: nat, increment: nat, compact: bool, opener: char, closer: char)
    requires
        is_pair(opener, closer),
        upto <= items.len(),
    ensures
        surplus(
            join_lines(element_lines(items, indentation, increment, compact).take(upto as int)),
            opener,
            closer,
        ) == items_text_count(items, upto, opener) - items_text_count(items, upto, closer),
    decreases items, 0nat, upto,
{
    let lines = element_lines(items, indentation, increment, compact);
    if upto == 0 {
        assert(lines.take(0) =~= Seq::<Seq<char>>::empty());
    } else {
        let last = (upto - 1) as nat;
        lemma_elements_surplus(items, last, indentation, increment, compact, opener, closer);
        lemma_element_surplus(items[last as int], indentation, increment, compact, opener, closer);
        let entry = render_element(items[last as int], indentation, increment, compact);
        lemma_count_pad(entry, indentation, opener);
        lemma_count_pad(entry, indentation, closer);
        lemma_join_take(lines, upto as int);
        lemma_count_pieces(opener);
        lemma_count_pieces(closer);
        if upto == 1 {
            assert(lines.take(0) =~= Seq::<Seq<char>>::empty());
        } else {
            let before = join_lines(lines.take(last as int));
            lemma_surplus_add(before, "\n"@, opener, closer);
            lemma_surplus_add(before + "\n"@, lines[last as int], opener, closer);
        }
    }
}

proof fn lemma_fields_surplus(fields: Seq<(Seq<char>, Json)>, upto: nat, indentation: nat, increment: nat, compact: bool, opener: char, closer: char)
    requires
        is_pair(opener, closer),
        upto <= fields.len(),
    ensures
        surplus(
            join_lines(field_lines(fields, indentation, increment, compact).take(upto as int)),
            opener,
            closer,
        ) == fields_text_count(fields, upto, opener) - fields_text_count(fields, upto, closer),
    decreases fields, 0nat, upto,
{
    let lines = field_lines(fields, indentation, increment, compact);
    if upto == 0 {
        assert(lines.take(0) =~= Seq::<Seq<char>>::empty());
    } else {
        let last = (upto - 1) as nat;
        lemma_fields_surplus(fields, last, indentation, increment, compact, opener, closer);
        lemma_field_surplus(fields[last as int].0, fields[last as int].1, indentation, increment, compact, opener, closer);
        let entry = render_field(fields[last as int].0, fields[last as int].1, indentation, increment, compact);
        lemma_count_pad(entry, indentation, opener);
        lemma_count_pad(entry, indentation, closer);
        lemma_join_take(lines, upto as int);
        lemma_count_pieces(opener);
        lemma_count_pieces(closer);
        if upto == 1 {
            assert(lines.take(0) =~= Seq::<Seq<char>>::empty());
        } else {
            let before = join_lines(lines.take(last as int));
            lemma_surplus_add(before, "\n"@, opener, closer);
            lemma_surplus_add(before + "\n"@, lines[last as int], opener, closer);
        }
    }
}

/// In a rendering the brackets are out of balance by as much as they are in
/// the texts of the value, and so are the braces. So a value whose texts hold
/// as many `[` as `]` is rendered with as many `[` as `]`, and only such a
/// value; likewise for `{` and `}`.
pub proof fn theorem_brackets_balance(value: Json, indentation: nat, increment: nat, compact: bool)
    ensures
        ({
            let text = render(value, indentation, increment, compact);
            &&& count(text, '[') - count(text, ']') == text_count(value, '[') - text_count(value, ']')
            &&& count(text, '{') - count(text, '}') == text_count(value, '{') - text_count(value, '}')
            &&& count(text, '[') == count(text, ']') <==> text_count(value, '[') == text_count(value, ']')
            &&& count(text, '{') == count(text, '}') <==> text_count(value, '{') == text_count(value, '}')
        }),
{
    lemma_render_surplus(value, indentation, increment, compact, '[', ']');
    lemma_render_surplus(value, indentation, increment, compact, '{', '}');
}

/// The left margin of the finished document changes none of these counts:
/// the document holds as many `[` as `]` exactly when the texts of the value
/// do, and likewise for `{` and `}`.
pub proof fn theorem_document_balance(tree: Json, config: Json2NixConfig)
    ensures
        count(document(tree, config), '[') == count(document(tree, config), ']') <==> text_count(tree, '[')
            == text_count(tree, ']'),
        count(document(tree, config), '{') == count(document(tree, config), '}') <==> text_count(tree, '{')
            == text_count(tree, '}'),
{
    let margin = config.initial_indentation as nat;
    let increment = config.indentation_increment as nat;
    let body = render(tree, margin, increment, config.compact_set_keys);
    theorem_brackets_balance(tree, margin, increment, config.compact_set_keys);
    lemma_count_pad(body, margin, '[');
    lemma_count_pad(body, margin, ']');
    lemma_count_pad(body, margin, '{');
    lemma_count_pad(body, margin, '}');
}

} // verus!
