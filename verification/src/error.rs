//! Error taxonomy of the import pipeline.
//!
//! Only `PersonNotFound` situations are handled locally (a row is skipped and
//! reported); everything here is fatal and aborts the run.

use vstd::prelude::*;

verus! {

/// A fatal import error.
#[derive(Debug, Clone, PartialEq, Eq)]
pub enum ImportError {
    /// A form token that names no known year band.
    InvalidYearBand(String),
    /// The header row holds more sentinel markers than there are bands left.
    HeaderSequenceExhausted,
    /// A data cell is non-empty under a column the header gave no event for.
    UnknownColumn(usize),
    /// The store refused an event creation (raised by the caller that runs
    /// the plan against the store; the planner itself never produces it).
    EventCreationFailed,
}

/// Mathematical model of an `ImportError`, over views.
pub enum ErrorModel {
    InvalidYearBand(Seq<char>),
    HeaderSequenceExhausted,
    UnknownColumn(int),
    EventCreationFailed,
}

/// Relates an executable error to its model.
pub open spec fn err_matches(e: ImportError, m: ErrorModel) -> bool {
    match (e, m) {
        (ImportError::InvalidYearBand(s), ErrorModel::InvalidYearBand(t)) => s@ == t,
        (ImportError::HeaderSequenceExhausted, ErrorModel::HeaderSequenceExhausted) => true,
        (ImportError::UnknownColumn(i), ErrorModel::UnknownColumn(j)) => i as int == j,
        (ImportError::EventCreationFailed, ErrorModel::EventCreationFailed) => true,
    (_, _) => false,
    }
}

} // verus!
