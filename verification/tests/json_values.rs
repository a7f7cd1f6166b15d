use fluree_migrate::json::{to_json_text, JsonValue};
use fluree_migrate::predicates::{validate_predicate, SchemaError};

#[test]
fn get_field_finds_first_entry() {
    let v = JsonValue::Obj(vec![
        ("a".to_string(), JsonValue::Int(1)),
        ("b".to_string(), JsonValue::Str("x".to_string())),
    ]);
    assert_eq!(v.get_field("a"), Some(&JsonValue::Int(1)));
    assert_eq!(v.get_field("b"), Some(&JsonValue::Str("x".to_string())));
    assert_eq!(v.get_field("c"), None);
    assert_eq!(JsonValue::Null.get_field("a"), None);
}

#[test]
fn scalar_accessors() {
    assert_eq!(JsonValue::Int(7).as_i64(), Some(7));
    assert_eq!(JsonValue::Str("s".to_string()).as_i64(), None);
    assert_eq!(JsonValue::Bool(true).as_bool(), Some(true));
    assert!(JsonValue::Null.is_null());
    assert!(!JsonValue::Int(0).is_null());
}

#[test]
fn clone_is_deep() {
    let v = JsonValue::Obj(vec![(
        "items".to_string(),
        JsonValue::Arr(vec![JsonValue::Int(1), JsonValue::Decimal("1.5".to_string())]),
    )]);
    assert_eq!(v.clone(), v);
}

// Compact JSON rendering: no whitespace, entries in order, strings
// quoted and escaped.
#[test]
fn values_render_as_compact_json() {
    let v = JsonValue::Obj(vec![
        ("a".to_string(), JsonValue::Int(-5)),
        (
            "b".to_string(),
            JsonValue::Arr(vec![
                JsonValue::Null,
                JsonValue::Bool(true),
                JsonValue::Str("x\"y".to_string()),
            ]),
        ),
        ("c".to_string(), JsonValue::Decimal("1.5".to_string())),
    ]);
    assert_eq!(to_json_text(&v), "{\"a\":-5,\"b\":[null,true,\"x\\\"y\"],\"c\":1.5}");
}

#[test]
fn json_text_escapes_control_characters() {
    let v = JsonValue::Str("a\n\t\u{1}\\".to_string());
    assert_eq!(to_json_text(&v), "\"a\\n\\t\\u0001\\\\\"");
}

#[test]
fn malformed_metadata_field_rejected() {
    let item = JsonValue::Obj(vec![
        ("_id".to_string(), JsonValue::Int(1)),
        ("name".to_string(), JsonValue::Str("person/age".to_string())),
        ("type".to_string(), JsonValue::Str("int".to_string())),
        ("multi".to_string(), JsonValue::Str("yes".to_string())),
    ]);
    assert_eq!(validate_predicate(&item), Err(SchemaError::MalformedField));
}

#[test]
fn well_formed_predicate_accepted() {
    let item = JsonValue::Obj(vec![
        ("_id".to_string(), JsonValue::Int(1)),
        ("name".to_string(), JsonValue::Str("person/age".to_string())),
        ("type".to_string(), JsonValue::Str("int".to_string())),
        ("unique".to_string(), JsonValue::Bool(true)),
        ("index".to_string(), JsonValue::Bool(true)),
    ]);
    assert!(validate_predicate(&item).is_ok());
}
