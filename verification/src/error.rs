//! The structured failures of scanning and parsing.

use vstd::prelude::*;

verus! {

/// Why a parse stopped. Offsets count scalars from the start of the input.
#[derive(Debug, PartialEq, Eq)]
#[allow(inconsistent_fields)]
pub enum ParseError {
    /// An expected literal or terminator was not found at `offset`.
    ScanMismatch { offset: usize, expected: String, found: String },
    /// The block dispatcher has no production for the scalar at `offset`.
    UnexpectedScalar { offset: usize, found: char },
    /// The delimiter, bracket, fence or quote opened at `offset` is never
    /// closed.
    UnterminatedConstruct { offset: usize },
    /// The digit run at `offset` does not fit a machine integer.
    MalformedNumber { offset: usize },
}

/// The model of a failure.
#[allow(inconsistent_fields)]
pub enum ParseErrorModel {
    ScanMismatch { offset: nat, expected: Seq<char>, found: Seq<char> },
    UnexpectedScalar { offset: nat, found: char },
    UnterminatedConstruct { offset: nat },
    MalformedNumber { offset: nat },
}

impl View for ParseError {
    type V = ParseErrorModel;

    open spec fn view(&self) -> ParseErrorModel {
        match self {
            ParseError::ScanMismatch { offset, expected, found } => ParseErrorModel::ScanMismatch {
                offset: *offset as nat,
                expected: expected@,
                found: found@,
            },
            ParseError::UnexpectedScalar { offset, found } => ParseErrorModel::UnexpectedScalar {
                offset: *offset as nat,
                found: *found,
            },
            ParseError::UnterminatedConstruct { offset } => ParseErrorModel::UnterminatedConstruct {
                offset: *offset as nat,
            },
            ParseError::MalformedNumber { offset } => ParseErrorModel::MalformedNumber {
                offset: *offset as nat,
            },
        }
    }
}

impl ParseErrorModel {
    /// Where the failure was detected.
    pub open spec fn offset(self) -> nat {
        match self {
            ParseErrorModel::ScanMismatch { offset, .. } => offset,
            ParseErrorModel::UnexpectedScalar { offset, .. } => offset,
            ParseErrorModel::UnterminatedConstruct { offset } => offset,
            ParseErrorModel::MalformedNumber { offset } => offset,
        }
    }
}

impl Clone for ParseError {
    fn clone(&self) -> (copy: Self)
        ensures
            copy@ == self@,
    {
        match self {
            ParseError::ScanMismatch { offset, expected, found } => ParseError::ScanMismatch {
                offset: *offset,
                expected: expected.clone(),
                found: found.clone(),
            },
            ParseError::UnexpectedScalar { offset, found } => ParseError::UnexpectedScalar {
                offset: *offset,
                found: *found,
            },
            ParseError::UnterminatedConstruct { offset } => ParseError::UnterminatedConstruct {
                offset: *offset,
            },
            ParseError::MalformedNumber { offset } => ParseError::MalformedNumber {
                offset: *offset,
            },
        }
    }
}

impl ParseError {
    /// Where the failure was detected.
    pub fn offset(&self) -> (at: usize)
        ensures
            at == self@.offset(),
    {
        match self {
            ParseError::ScanMismatch { offset, .. } => *offset,
            ParseError::UnexpectedScalar { offset, .. } => *offset,
            ParseError::UnterminatedConstruct { offset } => *offset,
            ParseError::MalformedNumber { offset } => *offset,
        }
    }
}

} // verus!
