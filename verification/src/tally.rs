//! Counting characters in a text.

use crate::escape::{escape_key, escape_quotes, is_bare_key};
use crate::indent::{pad, spaces};
use crate::render::join_lines;
use vstd::prelude::*;

verus! {

/// How often `ch` occurs in `text`.
pub open spec fn count(text: Seq<char>, ch: char) -> nat
    decreases text.len(),
{
    if text.len() == 0 {
        0
    } else {
        count(text.drop_last(), ch) + if text.last() == ch {
            1nat
        } else {
            0nat
        }
    }
}

/// `[` or `{`.
pub open spec fn is_opener(ch: char) -> bool {
    ch == '[' || ch == '{'
}

/// `]` or `}`.
pub open spec fn is_closer(ch: char) -> bool {
    ch == ']' || ch == '}'
}

/// Whether `text` is free of `ch`.
pub open spec fn lacks(text: Seq<char>, ch: char) -> bool {
    forall|i: int| 0 <= i < text.len() ==> text[i] != ch
}

/// The count of a text in two parts is the sum of the counts of the parts.
pub proof fn lemma_count_add(left: Seq<char>, right: Seq<char>, ch: char)
    ensures
        count(left + right, ch) == count(left, ch) + count(right, ch),
    decreases right.len(),
{
    if right.len() == 0 {
        assert(left + right =~= left);
    } else {
        lemma_count_add(left, right.drop_last(), ch);
        assert((left + right).drop_last() =~= left + right.drop_last());
    }
}

/// A text counts no character that it lacks, and lacks each that it does not
/// count.
pub proof fn lemma_count_lacks(text: Seq<char>, ch: char)
    ensures
        lacks(text, ch) <==> count(text, ch) == 0,
    decreases text.len(),
{
    if text.len() > 0 {
        lemma_count_lacks(text.drop_last(), ch);
        if lacks(text, ch) {
            assert forall|i: int| 0 <= i < text.drop_last().len() implies text.drop_last()[i] != ch by {
                assert(text.drop_last()[i] == text[i]);
            }
        }
        if count(text, ch) == 0 {
            assert forall|i: int| 0 <= i < text.len() implies text[i] != ch by {
                if i < text.len() - 1 {
                    assert(text.drop_last()[i] == text[i]);
                }
            }
        }
    }
}

/// The count of a text of one character.
pub proof fn lemma_count_one(held: char, ch: char)
    ensures
        count(seq![held], ch) == if held == ch {
            1nat
        } else {
            0nat
        },
{
    assert(seq![held].drop_last() =~= Seq::<char>::empty());
    assert(count(Seq::<char>::empty(), ch) == 0);
}

/// Padding adds nothing but spaces.
pub proof fn lemma_count_pad(text: Seq<char>, width: nat, ch: char)
    requires
        ch != ' ',
    ensures
        count(pad(text, width), ch) == count(text, ch),
{
    lemma_count_lacks(spaces(width), ch);
    lemma_count_add(spaces(width), text, ch);
}

/// Escaping quotes adds nothing but backslashes.
pub proof fn lemma_count_escape_quotes(text: Seq<char>, ch: char)
    requires
        ch != '\\',
    ensures
        count(escape_quotes(text), ch) == count(text, ch),
    decreases text.len(),
{
    if text.len() > 0 {
        let before = escape_quotes(text.drop_last());
        lemma_count_escape_quotes(text.drop_last(), ch);
        if text.last() == '"' {
            lemma_count_add(before, seq!['\\', '"'], ch);
            assert(seq!['\\', '"'] =~= seq!['\\'] + seq!['"']);
            lemma_count_add(seq!['\\'], seq!['"'], ch);
            lemma_count_one('\\', ch);
            lemma_count_one('"', ch);
        } else {
            assert(before.push(text.last()) =~= before + seq![text.last()]);
            lemma_count_add(before, seq![text.last()], ch);
            lemma_count_one(text.last(), ch);
        }
    }
}

/// An attribute name holds what its key holds, and quotes and backslashes.
pub proof fn lemma_count_escape_key(key: Seq<char>, ch: char)
    requires
        ch != '\\',
        ch != '"',
    ensures
        count(escape_key(key), ch) == count(key, ch),
{
    if !is_bare_key(key) {
        lemma_count_escape_quotes(key, ch);
        lemma_count_add(seq!['"'], escape_quotes(key), ch);
        lemma_count_add(seq!['"'] + escape_quotes(key), seq!['"'], ch);
        lemma_count_one('"', ch);
    }
}

/// A line break, a bracket or a brace: the characters that shape a block.
pub open spec fn is_mark(ch: char) -> bool {
    is_opener(ch) || is_closer(ch) || ch == '\n'
}

/// How often a mark occurs in each fixed piece of text that the formatter
/// writes.
pub proof fn lemma_count_pieces(ch: char)
    requires
        is_mark(ch),
    ensures
        count("null"@, ch) == 0,
        count("true"@, ch) == 0,
        count("false"@, ch) == 0,
        count("\""@, ch) == 0,
        count("."@, ch) == 0,
        count(" = "@, ch) == 0,
        count(";"@, ch) == 0,
        count("\n"@, ch) == if ch == '\n' {
            1nat
        } else {
            0nat
        },
        count("["@, ch) == if ch == '[' {
            1nat
        } else {
            0nat
        },
        count("]"@, ch) == if ch == ']' {
            1nat
        } else {
            0nat
        },
        count("{"@, ch) == if ch == '{' {
            1nat
        } else {
            0nat
        },
        count("}"@, ch) == if ch == '}' {
            1nat
        } else {
            0nat
        },
        count("[ ]"@, ch) == if ch == '[' || ch == ']' {
            1nat
        } else {
            0nat
        },
        count("{ }"@, ch) == if ch == '{' || ch == '}' {
            1nat
        } else {
            0nat
        },
{
    reveal_strlit("null");
    reveal_strlit("true");
    reveal_strlit("false");
    reveal_strlit("\"");
    reveal_strlit(".");
    reveal_strlit(" = ");
    reveal_strlit(";");
    reveal_strlit("\n");
    reveal_strlit("[");
    reveal_strlit("]");
    reveal_strlit("{");
    reveal_strlit("}");
    reveal_strlit("[ ]");
    reveal_strlit("{ }");
    lemma_count_lacks("null"@, ch);
    lemma_count_lacks("true"@, ch);
    lemma_count_lacks("false"@, ch);
    lemma_count_lacks("\""@, ch);
    lemma_count_lacks("."@, ch);
    lemma_count_lacks(" = "@, ch);
    lemma_count_lacks(";"@, ch);
    assert("\n"@ =~= seq!['\n']);
    assert("["@ =~= seq!['[']);
    assert("]"@ =~= seq![']']);
    assert("{"@ =~= seq!['{']);
    assert("}"@ =~= seq!['}']);
    lemma_count_one('\n', ch);
    lemma_count_one('[', ch);
    lemma_count_one(']', ch);
    lemma_count_one('{', ch);
    lemma_count_one('}', ch);
    lemma_count_one(' ', ch);
    assert("[ ]"@ =~= seq!['['] + seq![' '] + seq![']']);
    lemma_count_add(seq!['['], seq![' '], ch);
    lemma_count_add(seq!['['] + seq![' '], seq![']'], ch);
    assert("{ }"@ =~= seq!['{'] + seq![' '] + seq!['}']);
    lemma_count_add(seq!['{'], seq![' '], ch);
    lemma_count_add(seq!['{'] + seq![' '], seq!['}'], ch);
}

/// The first `upto` lines joined, by the lines before the last of them.
pub proof fn lemma_join_take(lines: Seq<Seq<char>>, upto: int)
    requires
        0 < upto <= lines.len(),
    ensures
        join_lines(lines.take(upto)) == if upto == 1 {
            lines[0]
        } else {
            join_lines(lines.take(upto - 1)) + "\n"@ + lines[upto - 1]
        },
{
    assert(lines.take(upto).drop_last() =~= lines.take(upto - 1));
}

} // verus!
