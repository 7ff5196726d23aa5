//! Attribute names: which may stand bare, and how the others are quoted.

use crate::text::same_text;
use vstd::prelude::*;
use vstd::std_specs::iter::IteratorSpec;
use vstd::string::StringExecFns;

verus! {

/// The words that the target language keeps for itself.
pub open spec fn is_keyword(key: Seq<char>) -> bool {
    ||| key == "true"@
    ||| key == "false"@
    ||| key == "null"@
    ||| key == "import"@
    ||| key == "inherit"@
    ||| key == "rec"@
    ||| key == "with"@
    ||| key == "assert"@
    ||| key == "if"@
    ||| key == "then"@
    ||| key == "else"@
    ||| key == "let"@
    ||| key == "in"@
}

/// An ASCII letter.
pub open spec fn is_letter(ch: char) -> bool {
    ('a' <= ch && ch <= 'z') || ('A' <= ch && ch <= 'Z')
}

/// A character that a bare attribute name may hold.
pub open spec fn is_name_char(ch: char) -> bool {
    is_letter(ch) || ('0' <= ch && ch <= '9') || ch == '-' || ch == '_'
}

/// A name that needs no quotes: not empty, no keyword, a letter first, and
/// nothing but letters, digits, `-` and `_`.
pub open spec fn is_bare_key(key: Seq<char>) -> bool {
    &&& key.len() > 0
    &&& !is_keyword(key)
    &&& is_letter(key[0])
    &&& forall|i: int| 0 <= i < key.len() ==> is_name_char(#[trigger] key[i])
}

/// `text` with a backslash put before each double quote.
pub open spec fn escape_quotes(text: Seq<char>) -> Seq<char>
    decreases text.len(),
{
    if text.len() == 0 {
        Seq::empty()
    } else if text.last() == '"' {
        escape_quotes(text.drop_last()) + seq!['\\', '"']
    } else {
        escape_quotes(text.drop_last()).push(text.last())
    }
}

/// `key` between double quotes, its own double quotes escaped.
pub open spec fn quoted_key(key: Seq<char>) -> Seq<char> {
    seq!['"'] + escape_quotes(key) + seq!['"']
}

/// The form in which `key` is written as an attribute name.
pub open spec fn escape_key(key: Seq<char>) -> Seq<char> {
    if is_bare_key(key) {
        key
    } else {
        quoted_key(key)
    }
}

/// In the escaped text no double quote stands without a backslash before it.
pub proof fn lemma_quotes_escaped(text: Seq<char>)
    ensures
        forall|i: int|
            0 <= i < escape_quotes(text).len() && #[trigger] escape_quotes(text)[i] == '"' ==> i > 0
                && escape_quotes(text)[i - 1] == '\\',
    decreases text.len(),
{
    if text.len() > 0 {
        lemma_quotes_escaped(text.drop_last());
        let before = escape_quotes(text.drop_last());
        let whole = escape_quotes(text);
        assert forall|i: int| 0 <= i < whole.len() && #[trigger] whole[i] == '"' implies i > 0 && whole[i - 1]
            == '\\' by {
            if i < before.len() {
                assert(whole[i] == before[i]);
                assert(whole[i - 1] == before[i - 1]);
            } else if text.last() == '"' {
                assert(whole[before.len() as int] == '\\');
                assert(whole[before.len() as int + 1] == '"');
            }
        }
    }
}

/// A key is written without quotes exactly when it is a bare name and no
/// keyword, and then it is written as it stands. Any other key is written
/// between double quotes, and every double quote of its own has a backslash
/// before it.
pub proof fn theorem_bare_or_quoted(key: Seq<char>)
    ensures
        is_bare_key(key) <==> escape_key(key)[0] != '"',
        is_bare_key(key) ==> escape_key(key) == key,
        !is_bare_key(key) ==> {
            let written = escape_key(key);
            let inside = written.subrange(1, written.len() - 1);
            &&& written.len() >= 2
            &&& written[0] == '"'
            &&& written.last() == '"'
            &&& inside == escape_quotes(key)
            &&& forall|i: int|
                0 <= i < inside.len() && #[trigger] inside[i] == '"' ==> i > 0 && inside[i - 1] == '\\'
        },
{
    if !is_bare_key(key) {
        let written = escape_key(key);
        assert(written.subrange(1, written.len() - 1) =~= escape_quotes(key));
        lemma_quotes_escaped(key);
    }
}

fn is_letter_char(ch: char) -> (letter: bool)
    ensures
        letter == is_letter(ch),
{
    ('a' <= ch && ch <= 'z') || ('A' <= ch && ch <= 'Z')
}

fn is_name_char_of(ch: char) -> (fine: bool)
    ensures
        fine == is_name_char(ch),
{
    is_letter_char(ch) || ('0' <= ch && ch <= '9') || ch == '-' || ch == '_'
}

fn is_reserved(value: &str) -> (reserved: bool)
    ensures
        reserved == is_keyword(value@),
{
    same_text(value, "true") || same_text(value, "false") || same_text(value, "null")
        || same_text(value, "import") || same_text(value, "inherit") || same_text(value, "rec")
        || same_text(value, "with") || same_text(value, "assert") || same_text(value, "if")
        || same_text(value, "then") || same_text(value, "else") || same_text(value, "let")
        || same_text(value, "in")
}

/// Whether `value` has to be quoted to serve as an attribute name.
pub fn needs_escape(value: &str) -> (needed: bool)
    ensures
        needed == !is_bare_key(value@),
{
    if is_reserved(value) {
        return true;
    }
    let mut rest = value.chars();
    match rest.next() {
        Some(first) => {
            if !is_letter_char(first) {
                return true;
            }
        },
        None => {
            return true;
        },
    }
    let ghost mut seen: int = 1;
    assert(value@.skip(0).drop_first() =~= value@.skip(1));
    loop
        invariant
            1 <= seen <= value@.len(),
            rest.remaining() == value@.skip(seen),
            !is_keyword(value@),
            is_letter(value@[0]),
            forall|i: int| 0 <= i < seen ==> is_name_char(#[trigger] value@[i]),
        decreases value@.len() - seen,
    {
        match rest.next() {
            Some(ch) => {
                assert(ch == value@[seen]);
                if !is_name_char_of(ch) {
                    return true;
                }
                proof {
                    assert(value@.skip(seen).drop_first() =~= value@.skip(seen + 1));
                    seen = seen + 1;
                }
            },
            None => {
                return false;
            },
        }
    }
}

/// Writes `value` as an attribute name: as it stands where that is allowed,
/// else between double quotes, with a backslash before each double quote in it.
pub fn escape_attribute_set_key(value: &str) -> (result: String)
    ensures
        result@ == escape_key(value@),
{
    if !needs_escape(value) {
        return value.to_owned();
    }
    let mut result = String::new();
    result.push('"');
    let mut rest = value.chars();
    let ghost mut seen: int = 0;
    assert(value@.take(0) =~= Seq::<char>::empty());
    loop
        invariant_except_break
            0 <= seen <= value@.len(),
            rest.remaining() == value@.skip(seen),
            result@ == seq!['"'] + escape_quotes(value@.take(seen)),
        ensures
            result@ == seq!['"'] + escape_quotes(value@),
        decreases value@.len() - seen,
    {
        match rest.next() {
            Some(ch) => {
                proof {
                    assert(ch == value@[seen]);
                    assert(value@.take(seen + 1).drop_last() =~= value@.take(seen));
                    assert(value@.skip(seen).drop_first() =~= value@.skip(seen + 1));
                }
                if ch == '"' {
                    proof {
                        reveal_strlit("\\\"");
                        assert("\\\""@ =~= seq!['\\', '"']);
                        assert(seq!['"'] + escape_quotes(value@.take(seen)) + seq!['\\', '"']
                            =~= seq!['"'] + (escape_quotes(value@.take(seen)) + seq!['\\', '"']));
                    }
                    result.append("\\\"");
                } else {
                    proof {
                        assert((seq!['"'] + escape_quotes(value@.take(seen))).push(ch)
                            =~= seq!['"'] + escape_quotes(value@.take(seen)).push(ch));
                    }
                    result.push(ch);
                }
                proof {
                    seen = seen + 1;
                }
            },
            None => {
                assert(value@.take(seen) =~= value@);
                break;
            },
        }
    }
    result.push('"');
    assert(result@ =~= quoted_key(value@));
    result
}

} // verus!
