//! Error types of the accumulator.

use crate::decimal::dec_str;
use crate::decimal::to_decimal_string;
use vstd::prelude::*;
use vstd::string::StringExecFns;

verus! {

/// Failure of fixed-width peak formatting.
#[derive(Debug, Clone)]
pub enum FormattingError {
    /// The requested output size is smaller than the number of live peaks.
    PeaksOutputSizeError,
}

/// Failure of an accumulator operation.
#[derive(Debug, Clone)]
pub enum MMRError {
    /// A position that must hold a hash (a peak or stored node) has none;
    /// this signals structural corruption and is fatal to the operation.
    NoHashFoundForIndex(usize),
    /// Peak formatting failed.
    Formatting(FormattingError),
    /// A merge step needs two peaks but fewer are on the stack; the
    /// pre-append state was inconsistent.
    InsufficientPeaksForMerge,
    /// The hashing primitive rejected its input.
    HashError,
}

impl FormattingError {
    /// A human-readable description of the error.
    pub fn message(&self) -> (r: String)
        ensures
            r@ == "Formatting: Expected peaks output size is smaller than the actual size"@,
    {
        "Formatting: Expected peaks output size is smaller than the actual size".to_owned()
    }
}

impl MMRError {
    /// A human-readable description of the error.
    pub fn message(&self) -> (r: String)
        ensures
            ({
                match self {
                    MMRError::NoHashFoundForIndex(idx) => r@ == "No hash found for index "@
                        + dec_str(*idx as nat),
                    MMRError::Formatting(_) => r@ == "Formatting error: "@
                        + "Formatting: Expected peaks output size is smaller than the actual size"@,
                    MMRError::InsufficientPeaksForMerge => r@ == "Insufficient peaks for merge"@,
                    MMRError::HashError => r@ == "Hash error"@,
                }
            }),
    {
        match self {
            MMRError::NoHashFoundForIndex(idx) => {
                let digits = to_decimal_string(*idx);
                "No hash found for index ".to_owned().concat(digits.as_str())
            },
            MMRError::Formatting(e) => {
                let detail = e.message();
                "Formatting error: ".to_owned().concat(detail.as_str())
            },
            MMRError::InsufficientPeaksForMerge => "Insufficient peaks for merge".to_owned(),
            MMRError::HashError => "Hash error".to_owned(),
        }
    }
}

} // verus!
