use std::ops::Not;

use json2nix::parser::from_json;
use json2nix::render::to_nix;
use serde_json::{value::Number, Value};

fn trim_indent(input: &str) -> String {
    let common_indent = input
        .lines()
        .filter(|line| line.is_empty().not())
        .map(|line| line.chars().take_while(|c| *c == ' ').count())
        .min()
        .unwrap_or(0);

    input
        .lines()
        .map(|line| line.chars().skip(common_indent).collect::<String>())
        .collect::<Vec<_>>()
        .join("\n")
        .trim()
        .to_string()
}

fn object(entries: Vec<(&str, Value)>) -> Value {
    let mut map = serde_json::Map::new();
    for (key, value) in entries {
        map.insert(key.to_string(), value);
    }
    Value::Object(map)
}

fn text(value: &str) -> Value {
    Value::String(value.to_string())
}

fn integer(value: i64) -> Value {
    Value::Number(Number::from(value))
}

fn float(value: f64) -> Value {
    Value::Number(Number::from_f64(value).unwrap())
}

fn nix(value: &Value, indentation: usize, indentation_increment: usize, compact_set_keys: bool) -> String {
    to_nix(&from_json(value), indentation, indentation_increment, compact_set_keys)
}

#[test]
fn null() {
    assert_eq!("null", nix(&Value::Null, 0, 0, false));
}

#[test]
fn bool_false() {
    assert_eq!("false", nix(&Value::Bool(false), 0, 0, false));
}

#[test]
fn bool_true() {
    assert_eq!("true", nix(&Value::Bool(true), 0, 0, false));
}

#[test]
fn number_positive_integer() {
    let input = Value::Number(Number::from(123));
    assert_eq!("123", nix(&input, 0, 0, false));
}

#[test]
fn number_negative_integer() {
    let input = Value::Number(Number::from(-123));
    assert_eq!("-123", nix(&input, 0, 0, false));
}

#[test]
fn number_positive_float() {
    let input = Value::Number(Number::from_f64(123.5505).unwrap());
    assert_eq!("123.5505", nix(&input, 0, 0, false));
}

#[test]
fn number_negative_float() {
    let input = Value::Number(Number::from_f64(-123.5505).unwrap());
    assert_eq!("-123.5505", nix(&input, 0, 0, false));
}

#[test]
fn string_empty() {
    assert_eq!(r#""""#, nix(&Value::String("".to_string()), 0, 0, false));
}

#[test]
fn string_simple() {
    let input = Value::String("Hello, world!".to_string());
    let expected = r#""Hello, world!""#;
    assert_eq!(expected, nix(&input, 0, 0, false));
}

#[test]
fn array_empty() {
    let input = Value::Array(vec![]);
    let expected = "[ ]";
    assert_eq!(expected, nix(&input, 0, 0, false));
}

#[test]
fn array_single_bool() {
    let input = Value::Array(vec![Value::Bool(true)]);
    let expected = "[\n  true\n]";
    assert_eq!(expected, nix(&input, 0, 2, false));
}

#[test]
fn array_multiple_bool() {
    let input = Value::Array(vec![Value::Bool(true), Value::Bool(false)]);
    let expected = "[\n  true\n  false\n]";
    assert_eq!(expected, nix(&input, 0, 2, false));
}

#[test]
fn object_empty() {
    let input = Value::Object(serde_json::Map::new());
    let expected = "{ }";
    assert_eq!(expected, nix(&input, 0, 0, false));
}

#[test]
fn object_single_key() {
    let input = object(vec![("key", text("value"))]);
    let expected = "{\n  key = \"value\";\n}";
    assert_eq!(expected, nix(&input, 0, 2, false));
}

#[test]
fn complex_object() {
    let input = object(vec![
        ("a", integer(123)),
        ("hello-world", text("!")),
        ("1", integer(1)),
        (
            "obj1",
            object(vec![
                ("key1", Value::Bool(true)),
                ("null", Value::Null),
                (
                    "arr1",
                    Value::Array(vec![
                        Value::Bool(false),
                        text("abc"),
                        object(vec![(
                            "xyz1",
                            object(vec![("xyz2", object(vec![("elemenope", float(5.55))]))]),
                        )]),
                    ]),
                ),
            ]),
        ),
    ]);
    let expected = r#"
          {
            a = 123;
            hello-world = "!";
            "1" = 1;
            obj1 = {
              key1 = true;
              "null" = null;
              arr1 = [
                false
                "abc"
                {
                  xyz1 = {
                    xyz2 = {
                      elemenope = 5.55;
                    };
                  };
                }
              ];
            };
          }"#;
    assert_eq!(trim_indent(expected), nix(&input, 0, 2, false));
}

#[test]
fn complex_array() {
    let input = Value::Array(vec![
        Value::Bool(true),
        Value::Bool(false),
        text("hello"),
        integer(123),
        float(123.456),
        Value::Array(vec![Value::Null, object(vec![("a_b_c", text("abc"))])]),
    ]);
    let expected = r#"
          [
            true
            false
            "hello"
            123
            123.456
            [
              null
              {
                a_b_c = "abc";
              }
            ]
          ]"#;
    assert_eq!(trim_indent(expected), nix(&input, 0, 2, false));
}

#[test]
fn object_compact_set_keys() {
    let input = object(vec![("key", object(vec![("value", Value::Bool(true))]))]);
    let expected = "key.value = true;";
    assert_eq!(expected, nix(&input, 0, 2, true));
}

#[test]
fn complex_object_compact_set_keys() {
    let input = object(vec![
        ("a", integer(123)),
        ("hello-world", text("!")),
        ("1", integer(1)),
        (
            "obj1",
            object(vec![
                ("key1", Value::Bool(true)),
                ("null", Value::Null),
                (
                    "arr1",
                    Value::Array(vec![
                        Value::Bool(false),
                        text("abc"),
                        object(vec![(
                            "xyz1",
                            object(vec![("xyz2", object(vec![("elemenope", float(5.55))]))]),
                        )]),
                    ]),
                ),
            ]),
        ),
        ("obj2", object(vec![("foo", object(vec![("bar", text("baz"))]))])),
        (
            "obj3",
            object(vec![(
                "a",
                object(vec![("x", integer(1)), ("y", object(vec![("z", integer(2))]))]),
            )]),
        ),
    ]);
    let expected = r#"
          {
            a = 123;
            hello-world = "!";
            "1" = 1;
            obj1 = {
              key1 = true;
              "null" = null;
              arr1 = [
                false
                "abc"
                {
                  xyz1.xyz2.elemenope = 5.55;
                }
              ];
            };
            obj2.foo.bar = "baz";
            obj3.a = {
              x = 1;
              y.z = 2;
            };
          }"#;
    assert_eq!(trim_indent(expected), nix(&input, 0, 2, true));
}

#[test]
fn array_compact_set_keys() {
    let input = Value::Array(vec![object(vec![("key", object(vec![("value", Value::Bool(true))]))])]);
    let expected = "[\n  {\n    key.value = true;\n  }\n]";
    assert_eq!(expected, nix(&input, 0, 2, true));
}

#[test]
fn complex_array_complex_set_keys() {
    let input = Value::Array(vec![
        Value::Bool(true),
        Value::Bool(false),
        text("hello"),
        integer(123),
        float(123.456),
        Value::Array(vec![Value::Null, object(vec![("a_b_c", text("abc"))])]),
        object(vec![
            ("x", object(vec![("y", object(vec![("z", Value::Bool(true))]))])),
            (
                "a",
                object(vec![(
                    "b",
                    object(vec![(
                        "c",
                        object(vec![("foo", integer(0)), ("bar", object(vec![("baz", integer(99))]))]),
                    )]),
                )]),
            ),
        ]),
    ]);
    let expected = r#"
          [
            true
            false
            "hello"
            123
            123.456
            [
              null
              {
                a_b_c = "abc";
              }
            ]
            {
              x.y.z = true;
              a.b.c = {
                foo = 0;
                bar.baz = 99;
              };
            }
          ]"#;
    assert_eq!(trim_indent(expected), nix(&input, 0, 2, true));
}
