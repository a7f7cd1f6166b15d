use fluree_migrate::json::JsonValue;
use fluree_migrate::parser::Parser;
use fluree_migrate::predicates::{
    parse_current_predicates, parse_for_class_and_property_name, validate_predicate, SchemaError,
};
use fluree_migrate::schema::Property;

fn obj(entries: Vec<(&str, JsonValue)>) -> JsonValue {
    JsonValue::Obj(entries.into_iter().map(|(k, v)| (k.to_string(), v)).collect())
}

fn predicate(id: i64, name: &str, type_tag: &str, multi: bool) -> JsonValue {
    obj(vec![
        ("_id", JsonValue::Int(id)),
        ("name", JsonValue::Str(name.to_string())),
        ("type", JsonValue::Str(type_tag.to_string())),
        ("multi", JsonValue::Bool(multi)),
    ])
}

fn fresh_parser() -> Parser {
    Parser::new(Vec::new(), Vec::new(), "net", "db")
}

#[test]
fn names_split_on_slash() {
    let item = predicate(1, "person/age", "int", false);
    let (class, property) = parse_for_class_and_property_name(&item).unwrap();
    assert_eq!(class, "person");
    assert_eq!(property, "age");
}

#[test]
fn missing_id_is_fatal() {
    let item = obj(vec![("name", JsonValue::Str("person/age".to_string()))]);
    assert_eq!(
        parse_for_class_and_property_name(&item),
        Err(SchemaError::MissingId)
    );
}

#[test]
fn missing_name_is_fatal() {
    let item = obj(vec![("_id", JsonValue::Int(1))]);
    assert_eq!(
        parse_for_class_and_property_name(&item),
        Err(SchemaError::MissingName)
    );
}

#[test]
fn slashless_name_is_fatal() {
    let item = obj(vec![
        ("_id", JsonValue::Int(1)),
        ("name", JsonValue::Str("noslash".to_string())),
    ]);
    assert_eq!(
        parse_for_class_and_property_name(&item),
        Err(SchemaError::MalformedName)
    );
}

#[test]
fn missing_type_is_fatal() {
    let item = obj(vec![
        ("_id", JsonValue::Int(1)),
        ("name", JsonValue::Str("person/age".to_string())),
    ]);
    assert_eq!(validate_predicate(&item), Err(SchemaError::MissingType));
}

#[test]
fn normalize_type_value_table() {
    assert_eq!(Property::normalize_type_value("float"), Some("xsd:float".to_string()));
    assert_eq!(Property::normalize_type_value("int"), Some("xsd:integer".to_string()));
    assert_eq!(Property::normalize_type_value("instant"), Some("xsd:dateTime".to_string()));
    assert_eq!(Property::normalize_type_value("boolean"), Some("xsd:boolean".to_string()));
    assert_eq!(Property::normalize_type_value("long"), Some("xsd:long".to_string()));
    assert_eq!(Property::normalize_type_value("string"), Some("xsd:string".to_string()));
    assert_eq!(Property::normalize_type_value("tag"), None);
    assert_eq!(Property::normalize_type_value("ref"), None);
}

#[test]
fn user_predicates_filtered_from_payload() {
    let payload = obj(vec![
        (
            "initial_predicates",
            JsonValue::Arr(vec![JsonValue::Int(10), JsonValue::Int(11)]),
        ),
        (
            "current_predicates",
            JsonValue::Arr(vec![
                predicate(10, "_block/hash", "string", false),
                predicate(50, "person/age", "int", false),
                predicate(11, "_tx/id", "string", false),
            ]),
        ),
    ]);
    let user = parse_current_predicates(&payload).unwrap();
    assert_eq!(user.len(), 1);
    let (class, property) = parse_for_class_and_property_name(&user[0]).unwrap();
    assert_eq!(class, "person");
    assert_eq!(property, "age");
}

#[test]
fn bad_payload_rejected() {
    let payload = obj(vec![("current_predicates", JsonValue::Arr(vec![]))]);
    assert_eq!(
        parse_current_predicates(&payload),
        Err(SchemaError::MalformedPayload)
    );
}

// Scenario: one int predicate yields property `age` with domain [Person]
// and the constraint {sh:path age, sh:maxCount 1, sh:datatype xsd:integer}.
#[test]
fn single_predicate_canonicalized() {
    let mut parser = fresh_parser();
    let items = vec![predicate(1, "person/age", "int", false)];
    let conflicts = parser.process_predicates(&items, false).unwrap();
    assert!(conflicts.is_empty());

    assert_eq!(parser.classes.len(), 1);
    let class = parser.find_class("person").unwrap();
    assert_eq!(class.id, "Person");
    assert_eq!(class.label, "Person");
    assert_eq!(class.range, vec!["age".to_string()]);

    let property = parser.find_property("age").unwrap();
    assert_eq!(property.id, "age");
    assert_eq!(property.domain, vec!["Person".to_string()]);
    assert_eq!(property.data_types, vec!["xsd:integer".to_string()]);

    let shape = parser.find_shacl_shape("Person").unwrap();
    assert_eq!(shape.target_class, "Person");
    assert_eq!(shape.property.len(), 1);
    let constraint = &shape.property[0];
    assert_eq!(constraint.path, "age");
    assert_eq!(constraint.max_count, Some(1));
    assert_eq!(constraint.datatype, Some("xsd:integer".to_string()));
    assert_eq!(constraint.class, None);
}

// Scenario: the same property name under two classes with two datatypes
// loses `sh:datatype` in both constraints and yields one conflict report
// per class, each naming the other datatype.
#[test]
fn conflicting_datatypes_reported_per_class() {
    let mut parser = fresh_parser();
    let items = vec![
        predicate(1, "person/score", "int", false),
        predicate(2, "team/score", "string", false),
    ];
    let conflicts = parser.process_predicates(&items, false).unwrap();

    let property = parser.find_property("score").unwrap();
    assert_eq!(
        property.data_types,
        vec!["xsd:integer".to_string(), "xsd:string".to_string()]
    );

    let person_shape = parser.find_shacl_shape("Person").unwrap();
    assert_eq!(person_shape.property[0].datatype, None);
    let team_shape = parser.find_shacl_shape("Team").unwrap();
    assert_eq!(team_shape.property[0].datatype, None);

    assert_eq!(conflicts.len(), 2);
    assert_eq!(conflicts[0].property, "score");
    assert_eq!(conflicts[0].class, "Person");
    assert_eq!(conflicts[0].winning, Some("xsd:integer".to_string()));
    assert_eq!(conflicts[0].others, vec!["xsd:string".to_string()]);
    assert_eq!(conflicts[1].property, "score");
    assert_eq!(conflicts[1].class, "Team");
    assert_eq!(conflicts[1].winning, Some("xsd:string".to_string()));
    assert_eq!(conflicts[1].others, vec!["xsd:integer".to_string()]);
}

#[test]
fn multi_predicate_uncapped() {
    let mut parser = fresh_parser();
    let items = vec![predicate(1, "person/nicknames", "string", true)];
    parser.process_predicates(&items, false).unwrap();
    let shape = parser.find_shacl_shape("Person").unwrap();
    assert_eq!(shape.property[0].max_count, None);
}

// An absent (or null) multi flag leaves the count uncapped; only an
// explicit `multi: false` caps it.
#[test]
fn absent_multi_flag_uncapped() {
    let mut parser = fresh_parser();
    let items = vec![
        obj(vec![
            ("_id", JsonValue::Int(1)),
            ("name", JsonValue::Str("person/age".to_string())),
            ("type", JsonValue::Str("int".to_string())),
        ]),
        obj(vec![
            ("_id", JsonValue::Int(2)),
            ("name", JsonValue::Str("person/note".to_string())),
            ("type", JsonValue::Str("string".to_string())),
            ("multi", JsonValue::Null),
        ]),
    ];
    parser.process_predicates(&items, false).unwrap();
    let shape = parser.find_shacl_shape("Person").unwrap();
    assert_eq!(shape.property[0].max_count, None);
    assert_eq!(shape.property[1].max_count, None);
}

#[test]
fn restrict_collection_becomes_class_constraint() {
    let mut parser = fresh_parser();
    let items = vec![obj(vec![
        ("_id", JsonValue::Int(1)),
        ("name", JsonValue::Str("person/employer".to_string())),
        ("type", JsonValue::Str("ref".to_string())),
        ("restrictCollection", JsonValue::Str("company".to_string())),
    ])];
    parser.process_predicates(&items, false).unwrap();
    let shape = parser.find_shacl_shape("Person").unwrap();
    assert_eq!(shape.property[0].class, Some("Company".to_string()));
    // `ref` has no normalized datatype, so none is emitted
    assert_eq!(shape.property[0].datatype, None);
}

#[test]
fn doc_becomes_property_comment() {
    let mut parser = fresh_parser();
    let items = vec![obj(vec![
        ("_id", JsonValue::Int(1)),
        ("name", JsonValue::Str("person/age".to_string())),
        ("type", JsonValue::Str("int".to_string())),
        ("doc", JsonValue::Str("age in years".to_string())),
    ])];
    parser.process_predicates(&items, false).unwrap();
    let property = parser.find_property("age").unwrap();
    assert_eq!(property.comment, "age in years");
}

#[test]
fn closed_shapes_ignore_type() {
    let mut parser = fresh_parser();
    let items = vec![predicate(1, "person/age", "int", false)];
    parser.process_predicates(&items, true).unwrap();
    let shape = parser.find_shacl_shape("Person").unwrap();
    assert_eq!(shape.closed, Some(true));
    assert_eq!(shape.ignored_properties, vec!["@type".to_string()]);
}

fn find_entry<'a>(doc: &'a JsonValue, key: &str) -> &'a JsonValue {
    match doc {
        JsonValue::Obj(entries) => {
            &entries.iter().find(|(k, _)| k == key).expect("key missing").1
        }
        _ => panic!("not an object"),
    }
}

// Boundary: a class appears in the vocabulary document even when its data
// extraction later finds zero entities.
#[test]
fn class_without_entities_still_in_vocabulary() {
    let mut parser = fresh_parser();
    let items = vec![predicate(1, "empty_kind/marker", "string", false)];
    parser.process_predicates(&items, true).unwrap();
    let doc = parser.get_vocab_json(true, &None);

    assert_eq!(find_entry(&doc, "ledger"), &JsonValue::Str("net/db".to_string()));
    let inserted = match find_entry(&doc, "insert") {
        JsonValue::Arr(items) => items,
        _ => panic!("insert is not an array"),
    };
    // one class, one property, one shape
    assert_eq!(inserted.len(), 3);
    assert_eq!(
        find_entry(&inserted[0], "@id"),
        &JsonValue::Str("EmptyKind".to_string())
    );
    assert_eq!(
        find_entry(&inserted[0], "@type"),
        &JsonValue::Str("rdfs:Class".to_string())
    );
    assert_eq!(
        find_entry(&inserted[1], "@id"),
        &JsonValue::Str("marker".to_string())
    );
    assert_eq!(
        find_entry(&inserted[2], "@type"),
        &JsonValue::Str("sh:NodeShape".to_string())
    );
}

#[test]
fn vocabulary_without_shacl_omits_shapes() {
    let mut parser = fresh_parser();
    let items = vec![predicate(1, "person/age", "int", false)];
    parser.process_predicates(&items, false).unwrap();
    let doc = parser.get_vocab_json(false, &Some("my/ledger".to_string()));
    assert_eq!(find_entry(&doc, "ledger"), &JsonValue::Str("my/ledger".to_string()));
    let inserted = match find_entry(&doc, "insert") {
        JsonValue::Arr(items) => items,
        _ => panic!("insert is not an array"),
    };
    assert_eq!(inserted.len(), 2);
}
