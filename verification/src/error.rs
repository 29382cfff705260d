//! Errors of the server library.
use vstd::prelude::*;
use crate::db_loader::grammar::{fail, DbFail};

verus! {

/// Errors reported by the database loader.
#[derive(Debug, Clone, PartialEq, Eq)]
pub enum CaError {
    /// A `.db` text could not be read: where, and what was expected.
    DbParseError { line: usize, column: usize, message: String },
}

impl CaError {
    pub open spec fn model(&self) -> DbFail {
        match self {
            CaError::DbParseError { line, column, message } => fail(*line as int, *column as int, message@),
        }
    }
}

} // verus!
