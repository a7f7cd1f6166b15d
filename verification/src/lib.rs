//! Migration engine for a schema-and-data-bearing ledger: canonicalizes a
//! flat predicate list into a class/property/SHACL graph, paginates entity
//! data with duplicate-termination detection, transforms raw records into
//! JSON-LD nodes, and accumulates them into size-bounded output documents.

use vstd::prelude::*;

pub mod config;
pub mod connection;
pub mod display;
pub mod extract;
pub mod json;
pub mod laws;
pub mod names;
pub mod output;
pub mod parser;
pub mod predicates;
pub mod resume;
pub mod schema;
pub mod transform;

verus! {

/// Joins a prefix onto a string.
pub fn add_prefix(string: &str, prefix: &str) -> (r: String)
    ensures
        r@ == prefix@ + string@,
{
    let mut out = prefix.to_owned();
    out.append(string);
    out
}

} // verus!
