use fluree_migrate::json::JsonValue;
use fluree_migrate::resume::{
    already_transacted, build_txn_id_query, is_empty_txn_doc, ledger_name_from_doc,
};

#[test]
fn transacted_files_skipped() {
    let txn_ids = vec!["0_vocab.jsonld".to_string(), "1_data.jsonld".to_string()];
    assert!(already_transacted("1_data.jsonld", &txn_ids));
    assert!(!already_transacted("2_data.jsonld", &txn_ids));
}

#[test]
fn empty_documents_detected() {
    let empty = JsonValue::Obj(vec![
        ("ledger".to_string(), JsonValue::Str("net/db".to_string())),
        ("insert".to_string(), JsonValue::Arr(vec![JsonValue::Null])),
    ]);
    assert!(is_empty_txn_doc(&empty));
    let full = JsonValue::Obj(vec![(
        "insert".to_string(),
        JsonValue::Arr(vec![JsonValue::Null, JsonValue::Null]),
    )]);
    assert!(!is_empty_txn_doc(&full));
    let no_insert = JsonValue::Obj(vec![]);
    assert!(!is_empty_txn_doc(&no_insert));
}

#[test]
fn resumed_ledger_name_resolution() {
    let doc = JsonValue::Obj(vec![(
        "ledger".to_string(),
        JsonValue::Str("net/db".to_string()),
    )]);
    assert_eq!(ledger_name_from_doc(&None, &doc), Some("net/db".to_string()));
    assert_eq!(
        ledger_name_from_doc(&Some("other".to_string()), &doc),
        Some("other".to_string())
    );
    assert_eq!(ledger_name_from_doc(&None, &JsonValue::Obj(vec![])), None);
}

#[test]
fn txn_id_query_text() {
    assert_eq!(
        build_txn_id_query("net/db"),
        "{\"@context\": {\"f\": \"https://ns.flur.ee/ledger#\"}, \"from\": \"net/db\", \"selectDistinct\": \"?o\", \"where\": {\"@type\": \"f:Txn\", \"f:fileName\": \"?o\"}, \"limit\": 999999}"
    );
}
