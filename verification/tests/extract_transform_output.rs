use fluree_migrate::config::MigrateOptions;
use fluree_migrate::extract::{
    spill_class_name, spill_file_name, ClassExtraction, PageOutcome, PAGE_SIZE, SPILL_THRESHOLD,
};
use fluree_migrate::json::JsonValue;
use fluree_migrate::output::{
    build_data_query, create_data_context, create_vocab_context, resolve_ledger_name,
    vocab_file_name, OutputSink, FLUSH_THRESHOLD,
};
use fluree_migrate::parser::Parser;
use fluree_migrate::transform::{
    instant_to_iso_string, represent_fluree_value, transform_record, try_instant_to_iso_string,
    TransformError,
};

fn record(id: i64) -> JsonValue {
    JsonValue::Obj(vec![("_id".to_string(), JsonValue::Int(id))])
}

fn page(from: i64, to: i64) -> Vec<JsonValue> {
    (from..to).map(record).collect()
}

#[test]
fn extraction_stops_on_empty_first_page() {
    let mut extraction = ClassExtraction::new();
    match extraction.step(Vec::new()).unwrap() {
        PageOutcome::Finished(spill) => assert!(spill.is_empty()),
        PageOutcome::Continued(_) => panic!("empty page must finish"),
    }
    assert_eq!(extraction.offset, 0);
}

// A source that keeps returning its last page is stopped at the repeat.
#[test]
fn extraction_stops_on_repeated_page() {
    let mut extraction = ClassExtraction::new();
    match extraction.step(page(0, 3)).unwrap() {
        PageOutcome::Continued(spill) => assert!(spill.is_none()),
        PageOutcome::Finished(_) => panic!("new ids must continue"),
    }
    assert_eq!(extraction.offset, PAGE_SIZE);
    match extraction.step(page(0, 3)).unwrap() {
        PageOutcome::Finished(spill) => assert_eq!(spill.len(), 3),
        PageOutcome::Continued(_) => panic!("repeated page must finish"),
    }
}

#[test]
fn extraction_requires_record_ids() {
    let mut extraction = ClassExtraction::new();
    let bad = vec![JsonValue::Obj(vec![(
        "name".to_string(),
        JsonValue::Str("no id".to_string()),
    )])];
    assert!(extraction.step(bad).is_err());
}

// Scenario: 13,000 records in one class at page size 5,000. The buffer
// crosses the 12,500-record bound once (at 13,000 buffered records), so
// one threshold spill happens mid-pagination and the final page flushes
// the rest.
#[test]
fn thirteen_thousand_records_spill_once_then_flush() {
    assert_eq!(PAGE_SIZE, 5000);
    assert_eq!(SPILL_THRESHOLD, 12500);
    let mut extraction = ClassExtraction::new();
    let mut threshold_spills = 0;
    let mut spilled_records = 0;

    for start in [0i64, 5000, 10000] {
        let end = if start == 10000 { 13000 } else { start + 5000 };
        match extraction.step(page(start, end)).unwrap() {
            PageOutcome::Continued(Some(spill)) => {
                threshold_spills += 1;
                spilled_records += spill.len();
            }
            PageOutcome::Continued(None) => {}
            PageOutcome::Finished(_) => panic!("pagination ended early"),
        }
    }
    let final_spill = match extraction.step(Vec::new()).unwrap() {
        PageOutcome::Finished(spill) => spill,
        PageOutcome::Continued(_) => panic!("empty page must finish"),
    };

    assert_eq!(threshold_spills, 1);
    assert_eq!(spilled_records, 13000);
    assert_eq!(final_spill.len(), 0);
}

#[test]
fn spill_names_round_trip() {
    assert_eq!(spill_file_name(0, "person"), "0__person");
    assert_eq!(spill_file_name(12, "team"), "12__team");
    assert_eq!(spill_class_name("12__team"), "team");
    assert_eq!(spill_class_name("3__my__class"), "class");
    assert_eq!(spill_class_name("noseparator"), "noseparator");
}

// Round trip: a raw epoch-millisecond value under an `xsd:dateTime`
// property becomes RFC 3339 millisecond-precision UTC text.
#[test]
fn instant_renders_rfc3339() {
    assert_eq!(instant_to_iso_string(1693403567000), "2023-08-30T13:52:47.000Z");
    assert_eq!(instant_to_iso_string(0), "1970-01-01T00:00:00.000Z");
    assert_eq!(
        try_instant_to_iso_string(947638923004).as_deref(),
        Some("2000-01-12T01:02:03.004Z")
    );
}

#[test]
fn reference_values_rewritten() {
    let value = JsonValue::Obj(vec![("_id".to_string(), JsonValue::Int(7))]);
    let out = represent_fluree_value(&value, Some("Company"));
    assert_eq!(
        out,
        JsonValue::Obj(vec![
            ("@id".to_string(), JsonValue::Str("7".to_string())),
            ("@type".to_string(), JsonValue::Str("Company".to_string())),
        ])
    );

    let arr = JsonValue::Arr(vec![value]);
    let out = represent_fluree_value(&arr, None);
    assert_eq!(
        out,
        JsonValue::Arr(vec![JsonValue::Obj(vec![(
            "@id".to_string(),
            JsonValue::Str("7".to_string())
        )])])
    );

    let scalar = JsonValue::Str("plain".to_string());
    assert_eq!(represent_fluree_value(&scalar, None), scalar);
}

// A reference object's id text is the compact JSON rendering of whatever
// `_id` holds — `null` when it is absent, quoted when it is a string.
#[test]
fn degenerate_references_keep_id_text() {
    let missing = JsonValue::Obj(vec![("other".to_string(), JsonValue::Int(1))]);
    assert_eq!(
        represent_fluree_value(&missing, None),
        JsonValue::Obj(vec![("@id".to_string(), JsonValue::Str("null".to_string()))])
    );

    let text_id = JsonValue::Obj(vec![(
        "_id".to_string(),
        JsonValue::Str("abc".to_string()),
    )]);
    assert_eq!(
        represent_fluree_value(&text_id, None),
        JsonValue::Obj(vec![("@id".to_string(), JsonValue::Str("\"abc\"".to_string()))])
    );
}

fn transform_parser() -> Parser {
    let mut parser = Parser::new(Vec::new(), Vec::new(), "net", "db");
    let items = vec![
        JsonValue::Obj(vec![
            ("_id".to_string(), JsonValue::Int(1)),
            ("name".to_string(), JsonValue::Str("person/birthday".to_string())),
            ("type".to_string(), JsonValue::Str("instant".to_string())),
        ]),
        JsonValue::Obj(vec![
            ("_id".to_string(), JsonValue::Int(2)),
            ("name".to_string(), JsonValue::Str("person/employer".to_string())),
            ("type".to_string(), JsonValue::Str("ref".to_string())),
            ("restrictCollection".to_string(), JsonValue::Str("company".to_string())),
        ]),
        JsonValue::Obj(vec![
            ("_id".to_string(), JsonValue::Int(3)),
            ("name".to_string(), JsonValue::Str("person/full_name".to_string())),
            ("type".to_string(), JsonValue::Str("string".to_string())),
        ]),
    ];
    parser.process_predicates(&items, false).unwrap();
    parser
}

// Round trip: raw value 1693403567000 under a property whose shape
// datatype is xsd:dateTime transforms to "2023-08-30T13:52:47.000Z".
#[test]
fn record_transformed_to_node() {
    let parser = transform_parser();
    let raw = JsonValue::Obj(vec![
        ("_id".to_string(), JsonValue::Int(42)),
        ("birthday".to_string(), JsonValue::Int(1693403567000)),
        (
            "employer".to_string(),
            JsonValue::Obj(vec![("_id".to_string(), JsonValue::Int(9))]),
        ),
        ("full_name".to_string(), JsonValue::Str("Kim Doe".to_string())),
        ("ignored_key".to_string(), JsonValue::Str("dropped".to_string())),
    ]);
    let node = transform_record(&parser, "person", &raw).unwrap();
    assert_eq!(
        node,
        JsonValue::Obj(vec![
            ("@id".to_string(), JsonValue::Str("42".to_string())),
            ("@type".to_string(), JsonValue::Str("Person".to_string())),
            (
                "birthday".to_string(),
                JsonValue::Str("2023-08-30T13:52:47.000Z".to_string())
            ),
            (
                "employer".to_string(),
                JsonValue::Obj(vec![
                    ("@id".to_string(), JsonValue::Str("9".to_string())),
                    ("@type".to_string(), JsonValue::Str("Company".to_string())),
                ])
            ),
            ("fullName".to_string(), JsonValue::Str("Kim Doe".to_string())),
        ])
    );
}

#[test]
fn unknown_class_is_fatal() {
    let parser = transform_parser();
    assert_eq!(
        transform_record(&parser, "animal", &record(1)),
        Err(TransformError::UnknownClass)
    );
}

#[test]
fn record_without_id_is_fatal() {
    let parser = transform_parser();
    let raw = JsonValue::Obj(vec![(
        "full_name".to_string(),
        JsonValue::Str("No Id".to_string()),
    )]);
    assert_eq!(
        transform_record(&parser, "person", &raw),
        Err(TransformError::MissingRecordId)
    );
}

#[test]
fn bad_instant_is_fatal() {
    let parser = transform_parser();
    let raw = JsonValue::Obj(vec![
        ("_id".to_string(), JsonValue::Int(1)),
        ("birthday".to_string(), JsonValue::Str("not a number".to_string())),
    ]);
    assert_eq!(
        transform_record(&parser, "person", &raw),
        Err(TransformError::BadInstant)
    );
}

fn find_entry<'a>(doc: &'a JsonValue, key: &str) -> &'a JsonValue {
    match doc {
        JsonValue::Obj(entries) => {
            &entries.iter().find(|(k, _)| k == key).expect("key missing").1
        }
        _ => panic!("not an object"),
    }
}

#[test]
fn sink_flushes_past_threshold_and_numbers_files() {
    assert_eq!(FLUSH_THRESHOLD, 2_500_000);
    let mut sink = OutputSink::new("net/db".to_string(), Vec::new());
    assert_eq!(vocab_file_name(), "0_vocab.jsonld");
    assert_eq!(sink.data_file_name(), "1_data.jsonld");

    sink.add_size(2_500_000);
    assert!(!sink.should_flush());
    sink.add_size(1);
    assert!(sink.should_flush());

    sink.push_node(record(1));
    let doc = sink.take_document();
    assert_eq!(find_entry(&doc, "ledger"), &JsonValue::Str("net/db".to_string()));
    match find_entry(&doc, "insert") {
        JsonValue::Arr(nodes) => assert_eq!(nodes.len(), 1),
        _ => panic!("insert is not an array"),
    }
    assert!(!sink.should_flush());
    assert_eq!(sink.data_file_name(), "2_data.jsonld");

    // the final flush still emits ledger and context metadata
    let final_doc = sink.take_document();
    match find_entry(&final_doc, "insert") {
        JsonValue::Arr(nodes) => assert!(nodes.is_empty()),
        _ => panic!("insert is not an array"),
    }
}

#[test]
fn contexts_derive_from_source_url() {
    let opt = MigrateOptions {
        print: false,
        remote_target: false,
        base: None,
        vocab: None,
        shacl: false,
        closed_shapes: false,
        is_create_ledger: false,
        ledger_name: None,
    };
    let data = create_data_context(&opt, "http://host:8090/fdb/net/db");
    assert_eq!(
        data,
        vec![
            ("@base".to_string(), "http://host:8090/fdb/net/db/ids/".to_string()),
            ("@vocab".to_string(), "http://host:8090/fdb/net/db/terms/".to_string()),
            ("rdfs".to_string(), "http://www.w3.org/2000/01/rdf-schema#".to_string()),
            ("rdf".to_string(), "http://www.w3.org/1999/02/22-rdf-syntax-ns#".to_string()),
            ("f".to_string(), "https://ns.flur.ee/ledger#".to_string()),
        ]
    );
}

#[test]
fn contexts_honor_overrides_and_shacl() {
    let opt = MigrateOptions {
        print: false,
        remote_target: false,
        base: Some("http://example.org/ids/".to_string()),
        vocab: Some("http://example.org/terms/".to_string()),
        shacl: true,
        closed_shapes: false,
        is_create_ledger: false,
        ledger_name: None,
    };
    let vocab = create_vocab_context(&opt, "http://host/fdb/net/db");
    assert_eq!(vocab[0], ("@base".to_string(), "http://example.org/terms/".to_string()));
    assert_eq!(vocab[1].0, "sh");
    assert_eq!(vocab[2].0, "xsd");

    let data = create_data_context(&opt, "http://host/fdb/net/db");
    assert_eq!(data[0], ("@base".to_string(), "http://example.org/ids/".to_string()));
    assert_eq!(data[1], ("@vocab".to_string(), "http://example.org/terms/".to_string()));
}

#[test]
fn ledger_name_resolution() {
    assert_eq!(resolve_ledger_name(&None, "net", "db"), "net/db");
    assert_eq!(
        resolve_ledger_name(&Some("other/name".to_string()), "net", "db"),
        "other/name"
    );
}

#[test]
fn data_query_text() {
    assert_eq!(
        build_data_query("person", 5000),
        "{\"select\": [\"*\"], \"from\": \"person\", \"opts\": {\"compact\": true, \"limit\": 5000, \"fuel\": 9999999999, \"offset\": 5000}}"
    );
}
