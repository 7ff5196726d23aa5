use json2nix::parser::from_json;
use json2nix::render::{fits_within, to_nix};
use json2nix::value::JsonValue;
use json2nix::{conclude, json2nix, try_json2nix, Json2NixConfig};

fn convert(input: &str, initial: usize, increment: usize, compact: bool) -> Result<String, String> {
    json2nix(input, &Json2NixConfig::new(initial, increment, compact))
}

#[test]
fn config_keeps_what_it_is_given() {
    let config = Json2NixConfig::new(3, 5, true);
    assert_eq!(3, config.initial_indentation);
    assert_eq!(5, config.indentation_increment);
    assert!(config.compact_set_keys);
    let other = Json2NixConfig::new(0, 2, false);
    assert_eq!(0, other.initial_indentation);
    assert_eq!(2, other.indentation_increment);
    assert!(!other.compact_set_keys);
}

#[test]
fn empty_object_is_written_in_short() {
    assert_eq!(Ok("{ }".to_string()), convert("{}", 0, 2, false));
}

#[test]
fn empty_array_is_written_in_short() {
    assert_eq!(Ok("[ ]".to_string()), convert("[]", 0, 2, false));
}

#[test]
fn object_of_one_field_is_a_block() {
    assert_eq!(Ok("{\n  a = 1;\n}".to_string()), convert("{\"a\":1}", 0, 2, false));
}

#[test]
fn nested_objects_of_one_field_fold() {
    assert_eq!(Ok("a.b = 2;".to_string()), convert("{\"a\":{\"b\":2}}", 0, 2, true));
}

#[test]
fn two_booleans_stand_below_each_other() {
    assert_eq!(Ok("[\n  true\n  false\n]".to_string()), convert("[true, false]", 0, 2, false));
}

#[test]
fn empty_containers_under_every_configuration() {
    for initial in [0usize, 1, 7] {
        for increment in [0usize, 2, 4] {
            for compact in [false, true] {
                let margin = " ".repeat(initial);
                assert_eq!(Ok(format!("{}[ ]", margin)), convert("[]", initial, increment, compact));
                assert_eq!(Ok(format!("{}{{ }}", margin)), convert("{}", initial, increment, compact));
                assert_eq!("[ ]", to_nix(&JsonValue::Array(vec![]), initial, increment, compact));
                assert_eq!("{ }", to_nix(&JsonValue::Object(vec![]), initial, increment, compact));
            }
        }
    }
}

#[test]
fn the_margin_is_put_once_before_the_document() {
    let expected = "   {\n     a = [\n       1\n     ];\n   }";
    assert_eq!(Ok(expected.to_string()), convert("{\"a\":[1]}", 3, 2, false));
    assert_eq!(Ok("    null".to_string()), convert("null", 4, 2, false));
}

#[test]
fn an_increment_of_zero_keeps_every_line_at_the_margin() {
    assert_eq!(Ok(" {\n a = [\n 1\n ];\n }".to_string()), convert("{\"a\":[1]}", 1, 0, false));
}

#[test]
fn fields_stay_in_the_order_of_the_document() {
    let expected = "{\n  zebra = 1;\n  apple = 2;\n  \"10\" = 3;\n  mango = 4;\n}";
    assert_eq!(
        Ok(expected.to_string()),
        convert("{\"zebra\":1,\"apple\":2,\"10\":3,\"mango\":4}", 0, 2, false)
    );
}

#[test]
fn numbers_are_written_in_canonical_form() {
    assert_eq!(Ok("[\n  1\n  -2\n  3.5\n  100.0\n  0.001\n]".to_string()), convert("[1, -2, 3.50, 1e2, 1e-3]", 0, 2, false));
}

#[test]
fn strings_are_quoted_and_not_escaped() {
    assert_eq!(Ok("\"say \"hi\"\"".to_string()), convert("\"say \\\"hi\\\"\"", 0, 2, false));
    assert_eq!(Ok("\"back\\slash\"".to_string()), convert("\"back\\\\slash\"", 0, 2, false));
    assert_eq!(Ok("\"two\nlines\"".to_string()), convert("\"two\\nlines\"", 0, 2, false));
}

#[test]
fn keys_are_escaped_in_the_document() {
    let expected = "{\n  \"with\" = 1;\n  \"a b\" = 2;\n  \"q\\\"q\" = 3;\n  ok-1 = 4;\n}";
    assert_eq!(
        Ok(expected.to_string()),
        convert("{\"with\":1,\"a b\":2,\"q\\\"q\":3,\"ok-1\":4}", 0, 2, false)
    );
}

#[test]
fn input_that_is_no_json_gives_the_parser_message() {
    let message = serde_json::from_str::<serde_json::Value>("{").unwrap_err().to_string();
    assert_eq!("EOF while parsing an object at line 1 column 1", message);
    assert_eq!(
        Err("Could not parse the input as JSON: EOF while parsing an object at line 1 column 1".to_string()),
        convert("{", 0, 2, false)
    );
    assert_eq!(
        Err("Could not parse the input as JSON: EOF while parsing a value at line 1 column 0".to_string()),
        convert("", 0, 2, false)
    );
    assert_eq!(
        Err("Could not parse the input as JSON: expected value at line 1 column 1".to_string()),
        convert("?", 4, 2, true)
    );
}

#[test]
fn conclude_wraps_the_message_and_lays_out_the_value() {
    let config = Json2NixConfig::new(2, 2, false);
    assert_eq!(
        Err("Could not parse the input as JSON: broken".to_string()),
        conclude(&Err("broken".to_string()), &config)
    );
    assert_eq!(
        Err("Could not parse the input as JSON: ".to_string()),
        conclude(&Err(String::new()), &config)
    );
    let value = JsonValue::Array(vec![JsonValue::Bool(true)]);
    assert_eq!(Ok("  [\n    true\n  ]".to_string()), conclude(&Ok(value), &config));
}

#[test]
fn try_json2nix_agrees_where_the_margins_fit() {
    let config = Json2NixConfig::new(1, 2, true);
    for input in ["{\"a\":{\"b\":[1,{\"c\":2}]}}", "[", "null", "[[[]]]"] {
        assert_eq!(Some(json2nix(input, &config)), try_json2nix(input, &config));
    }
}

#[test]
fn try_json2nix_declines_a_margin_beyond_usize() {
    let widest = Json2NixConfig::new(usize::MAX, 1, false);
    assert_eq!(None, try_json2nix("[1]", &widest));
    assert_eq!(None, try_json2nix("{\"a\":1}", &widest));
    let steep = Json2NixConfig::new(0, usize::MAX, false);
    assert_eq!(None, try_json2nix("[[1]]", &steep));
    assert_eq!(
        Some(Err("Could not parse the input as JSON: EOF while parsing a list at line 1 column 1".to_string())),
        try_json2nix("[", &widest)
    );
}

#[test]
fn fits_within_measures_the_deepest_margin() {
    let flat = JsonValue::Array(vec![JsonValue::Null]);
    assert!(fits_within(&flat, usize::MAX - 2, 2, false));
    assert!(!fits_within(&flat, usize::MAX - 1, 2, false));
    assert!(fits_within(&JsonValue::Array(vec![]), usize::MAX, usize::MAX, true));
    assert!(fits_within(&JsonValue::Null, usize::MAX, usize::MAX, true));

    let nested = JsonValue::Array(vec![JsonValue::Array(vec![JsonValue::Null])]);
    assert!(fits_within(&nested, usize::MAX - 4, 2, false));
    assert!(!fits_within(&nested, usize::MAX - 3, 2, false));

    let single = JsonValue::Object(vec![("a".to_string(), JsonValue::Array(vec![JsonValue::Null]))]);
    assert!(fits_within(&single, usize::MAX - 2, 2, true));
    assert!(!fits_within(&single, usize::MAX - 2, 2, false));
    assert!(fits_within(&single, usize::MAX - 4, 2, false));

    let element = JsonValue::Array(vec![JsonValue::Object(vec![("a".to_string(), JsonValue::Null)])]);
    assert!(fits_within(&element, usize::MAX - 4, 2, true));
    assert!(!fits_within(&element, usize::MAX - 3, 2, true));
    assert!(fits_within(&element, usize::MAX - 3, 2, false) == false);
    assert!(fits_within(&element, usize::MAX - 4, 2, false));
}

#[test]
fn from_json_copies_the_tree() {
    let mut map = serde_json::Map::new();
    map.insert("second".to_string(), serde_json::Value::Null);
    map.insert("first".to_string(), serde_json::Value::Bool(true));
    let tree = serde_json::Value::Array(vec![
        serde_json::Value::Object(map),
        serde_json::Value::String("text".to_string()),
        serde_json::Value::Number(serde_json::Number::from(-7)),
        serde_json::Value::Number(serde_json::Number::from(18446744073709551615u64)),
        serde_json::Value::Number(serde_json::Number::from_f64(0.25).unwrap()),
    ]);
    let expected = JsonValue::Array(vec![
        JsonValue::Object(vec![
            ("second".to_string(), JsonValue::Null),
            ("first".to_string(), JsonValue::Bool(true)),
        ]),
        JsonValue::String("text".to_string()),
        JsonValue::Number("-7".to_string()),
        JsonValue::Number("18446744073709551615".to_string()),
        JsonValue::Number("0.25".to_string()),
    ]);
    assert_eq!(expected, from_json(&tree));
    assert_eq!(JsonValue::Null, from_json(&serde_json::Value::Null));
    assert_eq!(JsonValue::Bool(false), from_json(&serde_json::Value::Bool(false)));
    assert_eq!(JsonValue::Array(vec![]), from_json(&serde_json::Value::Array(vec![])));
    assert_eq!(JsonValue::Object(vec![]), from_json(&serde_json::Value::Object(serde_json::Map::new())));
}

#[test]
fn is_single_tells_objects_of_one_field() {
    assert!(JsonValue::Object(vec![("a".to_string(), JsonValue::Null)]).is_single());
    assert!(!JsonValue::Object(vec![]).is_single());
    assert!(!JsonValue::Object(vec![
        ("a".to_string(), JsonValue::Null),
        ("b".to_string(), JsonValue::Null)
    ])
    .is_single());
    assert!(!JsonValue::Array(vec![JsonValue::Null]).is_single());
    assert!(!JsonValue::Null.is_single());
}
