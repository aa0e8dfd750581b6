use json_sql::decode::{decode, render_value, translate};
use json_sql::expr::{Expression, Key, LogicKind};
use json_sql::json::{text_eq, JsonValue};
use json_sql::parse::{flag_of, parse, ParseError};

fn s(x: &str) -> JsonValue {
    JsonValue::Str(x.to_string())
}

fn obj(entries: Vec<(&str, JsonValue)>) -> JsonValue {
    JsonValue::Object(entries.into_iter().map(|(k, v)| (k.to_string(), v)).collect())
}

#[test]
fn nested_formula_with_negation() {
    let text = r#"{"and":["some.value","some.value",{"or":["some.value","some.value"]}],"not":true}"#;
    assert_eq!(
        translate(text),
        Ok(" NOT ( some = value AND some = value AND ( some = value OR some = value ) )".to_string())
    );
}

#[test]
fn negation_given_as_text() {
    let text = r#"{"and":["some.value","some.value", {"or":["some.value","some.value"]}], "not": "true"}"#;
    assert_eq!(
        translate(text),
        Ok(" NOT ( some = value AND some = value AND ( some = value OR some = value ) )".to_string())
    );
    assert_eq!(translate(r#"{"or":["a.b"],"not":"false"}"#), Ok("( a = b )".to_string()));
    assert_eq!(translate(r#"{"or":["a.b"],"not":false}"#), Ok("( a = b )".to_string()));
}

#[test]
fn negation_before_operator_key() {
    assert_eq!(translate(r#"{"not":true,"or":["a.b","c.d"]}"#), Ok(" NOT ( a = b OR c = d )".to_string()));
}

#[test]
fn deep_nesting() {
    let text = r#"{"and":[{"or":[{"or":["some.value","some.value"]}]}], "not": "true"}"#;
    assert_eq!(
        translate(text),
        Ok(" NOT ( ( ( some = value OR some = value ) ) )".to_string())
    );
}

#[test]
fn empty_object_is_missing_operator() {
    assert_eq!(translate("{}"), Err(ParseError::MissingOperator));
}

#[test]
fn not_alone_is_missing_operator() {
    assert_eq!(translate(r#"{"not":true}"#), Err(ParseError::MissingOperator));
}

#[test]
fn empty_and_translates_to_empty_parens() {
    assert_eq!(translate(r#"{"and":[]}"#), Ok("(  )".to_string()));
}

#[test]
fn unknown_key_is_refused() {
    assert_eq!(translate(r#"{"xor":["a.b","c.d"]}"#), Err(ParseError::UnknownKey));
    assert_eq!(translate(r#"{"and":["a.b"],"xor":[]}"#), Err(ParseError::UnknownKey));
}

#[test]
fn keys_are_case_sensitive() {
    assert_eq!(translate(r#"{"AND":["a.b"]}"#), Err(ParseError::UnknownKey));
    assert_eq!(Key::from_name("Or"), Err(ParseError::UnknownKey));
    assert_eq!(Key::from_name("or"), Ok(Key::Or));
    assert_eq!(Key::from_name("and"), Ok(Key::And));
    assert_eq!(Key::from_name("not"), Ok(Key::Not));
}

#[test]
fn both_connectives_conflict() {
    assert_eq!(translate(r#"{"and":["a.b"],"or":["c.d"]}"#), Err(ParseError::ConflictingOperator));
}

#[test]
fn operator_needs_an_array() {
    assert_eq!(translate(r#"{"and":"a.b"}"#), Err(ParseError::TypeMismatch));
    assert_eq!(translate(r#"{"or":{"and":[]}}"#), Err(ParseError::TypeMismatch));
    assert_eq!(translate(r#"{"and":null}"#), Err(ParseError::TypeMismatch));
}

#[test]
fn negation_needs_a_flag() {
    assert_eq!(translate(r#"{"and":["a.b"],"not":"yes"}"#), Err(ParseError::TypeMismatch));
    assert_eq!(translate(r#"{"and":["a.b"],"not":"True"}"#), Err(ParseError::TypeMismatch));
    assert_eq!(translate(r#"{"and":["a.b"],"not":1}"#), Err(ParseError::TypeMismatch));
    assert_eq!(flag_of(&s("true")), Ok(true));
    assert_eq!(flag_of(&s("false")), Ok(false));
    assert_eq!(flag_of(&JsonValue::Bool(true)), Ok(true));
    assert_eq!(flag_of(&JsonValue::Null), Err(ParseError::TypeMismatch));
}

#[test]
fn unexpected_shapes() {
    assert_eq!(translate("[]"), Err(ParseError::UnexpectedShape));
    assert_eq!(translate("true"), Err(ParseError::UnexpectedShape));
    assert_eq!(translate("3"), Err(ParseError::UnexpectedShape));
    assert_eq!(translate("null"), Err(ParseError::UnexpectedShape));
    assert_eq!(translate(r#"{"and":["a.b",true]}"#), Err(ParseError::UnexpectedShape));
    assert_eq!(translate(r#"{"and":[["a.b"]]}"#), Err(ParseError::UnexpectedShape));
}

#[test]
fn bare_string_is_a_leaf() {
    assert_eq!(translate(r#""a.b""#), Ok("a = b".to_string()));
}

#[test]
fn malformed_text_is_a_syntax_error() {
    assert_eq!(translate("{"), Err(ParseError::SyntaxError));
    assert_eq!(translate(""), Err(ParseError::SyntaxError));
    assert_eq!(translate(r#"{"and":["a.b",]}"#), Err(ParseError::SyntaxError));
}

#[test]
fn decode_reads_every_kind() {
    match decode(r#"{"k":[null,1,true,"x"]}"#) {
        Ok(JsonValue::Object(es)) => {
            assert_eq!(es.len(), 1);
            assert_eq!(es[0].0, "k");
            match &es[0].1 {
                JsonValue::Array(items) => {
                    assert_eq!(items.len(), 4);
                    assert!(matches!(items[0], JsonValue::Null));
                    assert!(matches!(items[1], JsonValue::Number));
                    assert!(matches!(items[2], JsonValue::Bool(true)));
                    assert!(matches!(&items[3], JsonValue::Str(t) if t == "x"));
                }
                _ => panic!("expected an array"),
            }
        }
        _ => panic!("expected an object"),
    }
}

#[test]
fn parse_builds_the_tree() {
    let v = obj(vec![
        ("or", JsonValue::Array(vec![s("a.b"), obj(vec![("and", JsonValue::Array(vec![]))])])),
        ("not", JsonValue::Bool(true)),
    ]);
    match parse(&v) {
        Ok(Expression::Operator { kind: LogicKind::Or, children, negated: true }) => {
            assert_eq!(children.len(), 2);
            assert!(matches!(&children[0], Expression::Leaf(p) if p == "a.b"));
            assert!(matches!(
                &children[1],
                Expression::Operator { kind: LogicKind::And, negated: false, children } if children.is_empty()
            ));
        }
        other => panic!("unexpected {:?}", other),
    }
    assert_eq!(render_value(&v), Ok(" NOT ( a = b OR (  ) )".to_string()));
}

#[test]
fn first_error_in_children_wins() {
    let v = obj(vec![(
        "and",
        JsonValue::Array(vec![s("a.b"), JsonValue::Bool(false), obj(vec![("xor", JsonValue::Null)])]),
    )]);
    assert!(matches!(parse(&v), Err(ParseError::UnexpectedShape)));
    assert_eq!(render_value(&v), Err(ParseError::UnexpectedShape));
}

#[test]
fn unknown_key_checked_before_operator() {
    let v = obj(vec![("and", s("a.b")), ("other", JsonValue::Null)]);
    assert!(matches!(parse(&v), Err(ParseError::UnknownKey)));
}

#[test]
fn repeated_key_reads_first_entry() {
    let v = obj(vec![
        ("and", JsonValue::Array(vec![s("a.b")])),
        ("and", s("not an array")),
    ]);
    assert_eq!(render_value(&v), Ok("( a = b )".to_string()));
}

#[test]
fn text_equality() {
    assert!(text_eq("and", "and"));
    assert!(!text_eq("and", "an"));
    assert!(!text_eq("and", "And"));
    assert!(text_eq("", ""));
}

#[test]
fn decode_keeps_nested_text() {
    match decode(r#"[["a.b"], {"k": "v\"w"}]"#) {
        Ok(JsonValue::Array(items)) => {
            assert_eq!(items.len(), 2);
            match &items[0] {
                JsonValue::Array(inner) => {
                    assert!(matches!(&inner[0], JsonValue::Str(t) if t == "a.b"));
                }
                _ => panic!("expected an array"),
            }
            match &items[1] {
                JsonValue::Object(es) => {
                    assert_eq!(es[0].0, "k");
                    assert!(matches!(&es[0].1, JsonValue::Str(t) if t == "v\"w"));
                }
                _ => panic!("expected an object"),
            }
        }
        _ => panic!("expected an array"),
    }
}

#[test]
fn decode_refuses_malformed_text() {
    assert!(matches!(decode("[1,"), Err(ParseError::SyntaxError)));
    assert!(matches!(decode("nul"), Err(ParseError::SyntaxError)));
}

#[test]
fn escaped_leaf_paths_render_decoded() {
    assert_eq!(translate(r#"{"or":["a.b","c\"d.e"]}"#), Ok("( a = b OR c\"d = e )".to_string()));
}
