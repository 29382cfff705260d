//! Errors of the autosave subsystem.
use vstd::prelude::*;

verus! {

#[verifier::external_type_specification]
#[verifier::external_body]
pub struct ExIoError(std::io::Error);

/// Errors that can occur during autosave operations.
#[derive(Debug)]
pub enum AutosaveError {
    Io(std::io::Error),
    RequestFile { path: String, message: String },
    IncludeCycle { chain: Vec<String> },
    IncludeDepthExceeded(usize),
    UndefinedMacro { key: String, source: String, line: usize },
    CorruptSaveFile { path: String, message: String },
    PvNotFound(String),
}

} // verus!
