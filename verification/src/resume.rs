//! Resuming from a directory of already-written documents: which files a
//! target has seen, which are too empty to send, and which ledger they
//! address.

use vstd::prelude::*;

use crate::json::{spec_field, JsonValue, SpecJson};
use crate::schema::opt_string_view;

verus! {

/// Whether the target already holds a transaction by this file name.
pub fn already_transacted(file_name: &str, txn_ids: &Vec<String>) -> (r: bool)
    ensures
        r == txn_ids.deep_view().contains(file_name@),
{
    crate::schema::contains_string(txn_ids, file_name)
}

/// Whether a saved document carries fewer than two inserted nodes: such a
/// file holds only ledger and context metadata and is skipped on resume.
pub open spec fn empty_txn_doc(doc: SpecJson) -> bool {
    match spec_field(doc, "insert"@) {
        Option::Some(SpecJson::Arr(nodes)) => nodes.len() < 2,
        _ => false,
    }
}

/// Whether a saved document is too empty to resend.
pub fn is_empty_txn_doc(doc: &JsonValue) -> (r: bool)
    ensures
        r == empty_txn_doc(doc@),
{
    let field = doc.get_field("insert");
    match field {
        Option::Some(JsonValue::Arr(nodes)) => {
            proof {
                crate::json::lemma_json_view_seq_len(nodes@);
            }
            nodes.len() < 2
        },
        _ => false,
    }
}

/// The ledger a resumed run addresses: the override, or the name a saved
/// document carries.
pub open spec fn resumed_ledger_spec(
    override_name: Option<Seq<char>>,
    doc: SpecJson,
) -> Option<Seq<char>> {
    match override_name {
        Option::Some(l) => Option::Some(l),
        Option::None => match spec_field(doc, "ledger"@) {
            Option::Some(SpecJson::Str(l)) => Option::Some(l),
            _ => Option::None,
        },
    }
}

/// Reads the ledger name for a resumed run out of a saved document;
/// without an override or a `ledger` entry the run cannot proceed.
pub fn ledger_name_from_doc(override_name: &Option<String>, doc: &JsonValue) -> (r: Option<
    String,
>)
    ensures
        opt_string_view(r) == resumed_ledger_spec(opt_string_view(*override_name), doc@),
{
    match override_name {
        Option::Some(l) => Option::Some(String::clone(l)),
        Option::None => {
            let field = doc.get_field("ledger");
            match field {
                Option::Some(JsonValue::Str(l)) => Option::Some(String::clone(l)),
                _ => Option::None,
            }
        },
    }
}

/// The query that lists the file names a target ledger has already seen.
pub open spec fn txn_id_query_spec(ledger: Seq<char>) -> Seq<char> {
    "{\"@context\": {\"f\": \"https://ns.flur.ee/ledger#\"}, \"from\": \""@ + ledger
        + "\", \"selectDistinct\": \"?o\", \"where\": {\"@type\": \"f:Txn\", \"f:fileName\": \"?o\"}, \"limit\": 999999}"@
}

/// Builds the query for the file names a target has already transacted.
pub fn build_txn_id_query(ledger: &str) -> (r: String)
    ensures
        r@ == txn_id_query_spec(ledger@),
{
    let mut s = "{\"@context\": {\"f\": \"https://ns.flur.ee/ledger#\"}, \"from\": \"".to_owned();
    s.append(ledger);
    s.append(
        "\", \"selectDistinct\": \"?o\", \"where\": {\"@type\": \"f:Txn\", \"f:fileName\": \"?o\"}, \"limit\": 999999}",
    );
    s
}

} // verus!
