use json2nix::render::to_nix;
use json2nix::value::JsonValue;

fn string_of(value: &str) -> JsonValue {
    JsonValue::String(value.to_string())
}

fn number(value: &str) -> JsonValue {
    JsonValue::Number(value.to_string())
}

fn object_of(fields: Vec<(&str, JsonValue)>) -> JsonValue {
    JsonValue::Object(fields.into_iter().map(|(key, value)| (key.to_string(), value)).collect())
}

fn chain_of(keys: &[&str], leaf: JsonValue) -> JsonValue {
    let mut value = leaf;
    for key in keys.iter().rev() {
        value = object_of(vec![(key, value)]);
    }
    value
}

fn sample() -> JsonValue {
    object_of(vec![
        ("name", string_of("demo")),
        ("tags", JsonValue::Array(vec![string_of("a"), string_of("b"), JsonValue::Array(vec![])])),
        (
            "nested",
            object_of(vec![
                ("with", JsonValue::Bool(true)),
                ("deep", object_of(vec![("x", number("1")), ("y", JsonValue::Array(vec![number("2.5"), JsonValue::Null]))])),
                ("one", object_of(vec![("two", object_of(vec![("three", object_of(vec![]))]))])),
            ]),
        ),
        ("list", JsonValue::Array(vec![object_of(vec![("k", number("3"))]), object_of(vec![("p", number("4")), ("q", number("5"))])])),
    ])
}

fn occurrences(rendered: &str, wanted: char) -> usize {
    rendered.chars().filter(|ch| *ch == wanted).count()
}

fn assert_margins(rendered: &str, base: usize, increment: usize) {
    let mut open: usize = 0;
    for (index, line) in rendered.split('\n').enumerate() {
        let margin = line.chars().take_while(|ch| *ch == ' ').count();
        let rest = &line[margin..];
        let closes = rest.starts_with(']') || rest.starts_with('}');
        let depth = if closes { open - 1 } else { open };
        if index > 0 {
            assert_eq!(base + increment * depth, margin, "line {} of {:?}", index, rendered);
        }
        open += occurrences(line, '[') + occurrences(line, '{');
        open -= occurrences(line, ']') + occurrences(line, '}');
    }
    assert_eq!(0, open);
}

#[test]
fn brackets_and_braces_balance() {
    for compact in [false, true] {
        for increment in [0usize, 2, 3] {
            let rendered = to_nix(&sample(), 4, increment, compact);
            assert_eq!(occurrences(&rendered, '['), occurrences(&rendered, ']'));
            assert_eq!(occurrences(&rendered, '{'), occurrences(&rendered, '}'));
        }
    }
    let plain = to_nix(&sample(), 0, 2, false);
    assert_eq!(4, occurrences(&plain, '['));
    assert_eq!(8, occurrences(&plain, '{'));
    let folded = to_nix(&sample(), 0, 2, true);
    assert_eq!(4, occurrences(&folded, '['));
    assert_eq!(6, occurrences(&folded, '{'));
}

#[test]
fn brackets_inside_texts_are_all_that_can_tip_the_balance() {
    let value = JsonValue::Array(vec![string_of("[[{"), object_of(vec![("}", number("1"))])]);
    let rendered = to_nix(&value, 0, 2, false);
    assert_eq!("[\n  \"[[{\"\n  {\n    \"}\" = 1;\n  }\n]", rendered);
    assert_eq!(occurrences(&rendered, '[') - occurrences(&rendered, ']'), 2);
    assert_eq!(occurrences(&rendered, '{'), occurrences(&rendered, '}'));
}

#[test]
fn every_line_stands_at_the_margin_of_its_depth() {
    for (base, increment) in [(0usize, 2usize), (3, 4), (5, 1), (2, 0)] {
        assert_margins(&to_nix(&sample(), base, increment, false), base, increment);
        assert_margins(&to_nix(&sample(), base, increment, true), base, increment);
    }
    let expected = "{\n    a = [\n        1\n        [\n            2\n        ]\n    ];\n}";
    let value = object_of(vec![("a", JsonValue::Array(vec![number("1"), JsonValue::Array(vec![number("2")])]))]);
    assert_eq!(expected, to_nix(&value, 0, 4, false));
}

#[test]
fn lines_below_the_first_carry_the_indentation_given() {
    let value = JsonValue::Array(vec![JsonValue::Null, object_of(vec![("a", number("1")), ("b", number("2"))])]);
    let expected = "[\n     null\n     {\n       a = 1;\n       b = 2;\n     }\n   ]";
    assert_eq!(expected, to_nix(&value, 3, 2, false));
}

#[test]
fn a_folded_element_keeps_the_block_inside_it_at_the_level_of_the_element() {
    let value = JsonValue::Array(vec![object_of(vec![("a", object_of(vec![("b", number("1")), ("c", number("2"))]))])]);
    let expected = "[\n  {\n    a = {\n    b = 1;\n    c = 2;\n  };\n  }\n]";
    assert_eq!(expected, to_nix(&value, 0, 2, true));
    let unfolded = "[\n  {\n    a = {\n      b = 1;\n      c = 2;\n    };\n  }\n]";
    assert_eq!(unfolded, to_nix(&value, 0, 2, false));
}

#[test]
fn a_chain_folds_into_one_dotted_path() {
    let value = chain_of(&["a", "b c", "with", "d"], number("7"));
    assert_eq!("a.\"b c\".\"with\".d = 7;", to_nix(&value, 0, 2, true));
    assert_eq!("a.\"b c\".\"with\".d = 7;", to_nix(&value, 6, 3, true));
    let one = chain_of(&["only"], string_of("x"));
    assert_eq!("only = \"x\";", to_nix(&one, 0, 2, true));
}

#[test]
fn a_chain_unfolded_is_one_block_inside_the_other() {
    let value = chain_of(&["a", "b", "c"], number("7"));
    let expected = "{\n  a = {\n    b = {\n      c = 7;\n    };\n  };\n}";
    let rendered = to_nix(&value, 0, 2, false);
    assert_eq!(expected, rendered);
    assert_eq!(3, occurrences(&rendered, '{'));
    assert_eq!(3, occurrences(&rendered, '}'));
}

#[test]
fn a_chain_that_ends_in_a_block_folds_up_to_the_block() {
    let leaf = object_of(vec![("x", number("1")), ("y", number("2"))]);
    let value = chain_of(&["a", "b"], leaf);
    assert_eq!("a.b = {\n  x = 1;\n  y = 2;\n};", to_nix(&value, 0, 2, true));
    let list = chain_of(&["a", "b"], JsonValue::Array(vec![number("1")]));
    assert_eq!("a.b = [\n  1\n];", to_nix(&list, 0, 2, true));
}

#[test]
fn an_object_of_one_field_is_a_block_without_folding() {
    let value = object_of(vec![("a", number("1"))]);
    assert_eq!("{\n  a = 1;\n}", to_nix(&value, 0, 2, false));
    assert_eq!("a = 1;", to_nix(&value, 0, 2, true));
}

#[test]
fn scalars_are_written_as_they_are() {
    assert_eq!("null", to_nix(&JsonValue::Null, 9, 9, true));
    assert_eq!("true", to_nix(&JsonValue::Bool(true), 9, 9, true));
    assert_eq!("false", to_nix(&JsonValue::Bool(false), 9, 9, false));
    assert_eq!("-12.5e3", to_nix(&number("-12.5e3"), 9, 9, false));
    assert_eq!("\"a \"b\" \\ c\"", to_nix(&string_of("a \"b\" \\ c"), 9, 9, false));
}
