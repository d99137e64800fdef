//! Failure taxonomy of the library: syntactic, semantic and provider errors.

use vstd::prelude::*;

verus! {

/// A failure while parsing an order file or talking to the provider.
#[derive(Debug, Clone, PartialEq, Eq)]
pub enum BLHAError {
    /// Syntactic grammar violation: 1-based line, 0-based byte offset.
    ParseError { line: usize, col: usize },
    /// Semantic rejection of a statement; carries the offending text.
    ContractError { text: Vec<u8> },
    /// Non-1 status returned by a provider call.
    OLPError { call: Vec<u8>, code: i32 },
}

/// Mathematical model of a `BLHAError`.
pub enum SpecBLHAError {
    Parse { line: int, col: int },
    Contract { text: Seq<u8> },
    Olp { call: Seq<u8>, code: int },
}

impl View for BLHAError {
    type V = SpecBLHAError;

    open spec fn view(&self) -> SpecBLHAError {
        match self {
            BLHAError::ParseError { line, col } => SpecBLHAError::Parse {
                line: *line as int,
                col: *col as int,
            },
            BLHAError::ContractError { text } => SpecBLHAError::Contract { text: text@ },
            BLHAError::OLPError { call, code } => SpecBLHAError::Olp {
                call: call@,
                code: *code as int,
            },
        }
    }
}

} // verus!
