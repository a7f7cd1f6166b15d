//! The run configuration the migration engine reads: output destination,
//! context overrides, and shape options, as plain values.

use vstd::prelude::*;

verus! {

/// How and where the run emits its documents, and how the vocabulary is
/// shaped. Exactly one destination is active: printing, local files, or a
/// remote target.
pub struct MigrateOptions {
    /// Emit to standard output instead of files or a target.
    pub print: bool,
    /// Emit to a remote target instead of files.
    pub remote_target: bool,
    /// `@base` override for the data context.
    pub base: Option<String>,
    /// `@vocab` override for the vocabulary context.
    pub vocab: Option<String>,
    /// Emit SHACL node shapes into the vocabulary document.
    pub shacl: bool,
    /// Emitted shapes are closed.
    pub closed_shapes: bool,
    /// The first submission creates the target ledger.
    pub is_create_ledger: bool,
    /// Overrides the `network/db` ledger name.
    pub ledger_name: Option<String>,
}

} // verus!
