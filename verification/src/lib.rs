//! Renders a JSON document as a Nix expression.

pub mod balance;
pub mod escape;
pub mod indent;
pub mod margins;
pub mod parser;
pub mod paths;
pub mod render;
pub mod tally;
pub mod text;
pub mod value;

use crate::indent::{indent, pad};
use crate::parser::{error_message, from_json, parse, parsed};
use crate::render::{fits, fits_within, render, to_nix};
use crate::value::{Json, JsonValue};
use vstd::prelude::*;
use vstd::string::StringExecFns;

verus! {

/// How a document is laid out.
#[derive(Debug)]
pub struct Json2NixConfig {
    /// The left margin of the whole document, in spaces.
    pub initial_indentation: usize,
    /// The spaces added for each level of nesting.
    pub indentation_increment: usize,
    /// Whether an object of one field is folded into a dotted path.
    pub compact_set_keys: bool,
}

impl Json2NixConfig {
    /// The settings with these three values.
    pub fn new(initial_indentation: usize, indentation_increment: usize, compact_set_keys: bool) -> (config: Self)
        ensures
            config.initial_indentation == initial_indentation,
            config.indentation_increment == indentation_increment,
            config.compact_set_keys == compact_set_keys,
    {
        Self { initial_indentation, indentation_increment, compact_set_keys }
    }

    /// Whether `tree` can be laid out with these settings: every margin is a
    /// `usize`.
    pub open spec fn admits(self, tree: Json) -> bool {
        fits(tree, self.initial_indentation as nat, self.indentation_increment as nat, self.compact_set_keys)
    }
}

/// The finished document: `tree` rendered from the left margin on, and the
/// margin put once before its first line.
pub open spec fn document(tree: Json, config: Json2NixConfig) -> Seq<char> {
    pad(
        render(
            tree,
            config.initial_indentation as nat,
            config.indentation_increment as nat,
            config.compact_set_keys,
        ),
        config.initial_indentation as nat,
    )
}

/// The report of an input that is no JSON, around the parser's own message.
pub open spec fn parse_failure(message: Seq<char>) -> Seq<char> {
    "Could not parse the input as JSON: "@ + message
}

/// What a conversion returns for each outcome of parsing.
pub open spec fn conversion(outcome: Result<Json, Seq<char>>, config: Json2NixConfig) -> Result<Seq<char>, Seq<char>> {
    match outcome {
        Ok(tree) => Ok(document(tree, config)),
        Err(message) => Err(parse_failure(message)),
    }
}

/// A result of two strings, as the sequences they hold.
pub open spec fn texts(result: Result<String, String>) -> Result<Seq<char>, Seq<char>> {
    match result {
        Ok(text) => Ok(text@),
        Err(text) => Err(text@),
    }
}

/// A parsed document, or the parser's message, as what they stand for.
pub open spec fn outcome_model(outcome: Result<JsonValue, String>) -> Result<Json, Seq<char>> {
    match outcome {
        Ok(value) => Ok(value@),
        Err(message) => Err(message@),
    }
}

/// Finishes a conversion once the parser has answered: the document for a
/// value, the report for a message.
pub fn conclude(outcome: &Result<JsonValue, String>, config: &Json2NixConfig) -> (result: Result<String, String>)
    requires
        outcome matches Ok(value) ==> config.admits(value@),
    ensures
        texts(result) == conversion(outcome_model(*outcome), *config),
{
    match outcome {
        Ok(value) => {
            let body = to_nix(
                value,
                config.initial_indentation,
                config.indentation_increment,
                config.compact_set_keys,
            );
            Ok(indent(body.as_str(), config.initial_indentation))
        },
        Err(message) => {
            let mut report = "Could not parse the input as JSON: ".to_owned();
            report.append(message.as_str());
            Err(report)
        },
    }
}

/// Parses `input` and hands back what the parser found, in the library's own
/// types.
fn read(input: &str) -> (outcome: Result<JsonValue, String>)
    ensures
        outcome_model(outcome) == parsed(input@),
{
    match parse(input) {
        Ok(node) => Ok(from_json(&node)),
        Err(error) => Err(error_message(&error)),
    }
}

/// Converts the JSON document `input` to a Nix expression, laid out as
/// `config` says. An input that is no JSON gives the parser's message.
pub fn json2nix(input: &str, config: &Json2NixConfig) -> (result: Result<String, String>)
    requires
        parsed(input@) matches Ok(tree) ==> config.admits(tree),
    ensures
        texts(result) == conversion(parsed(input@), *config),
{
    let outcome = read(input);
    conclude(&outcome, config)
}

/// As [`json2nix`], for any input and settings: `None` where the document
/// would need a margin wider than a `usize`. The input is parsed once to
/// measure the document and once more to convert it.
pub fn try_json2nix(input: &str, config: &Json2NixConfig) -> (result: Option<Result<String, String>>)
    ensures
        match result {
            Some(converted) => {
                &&& parsed(input@) matches Ok(tree) ==> config.admits(tree)
                &&& texts(converted) == conversion(parsed(input@), *config)
            },
            None => parsed(input@) matches Ok(tree) && !config.admits(tree),
        },
{
    let within = match read(input) {
        Ok(value) => fits_within(
            &value,
            config.initial_indentation,
            config.indentation_increment,
            config.compact_set_keys,
        ),
        Err(_) => true,
    };
    if within {
        Some(json2nix(input, config))
    } else {
        None
    }
}

} // verus!
