//! The errors of parsing and serialising a Howick CSV file.
use vstd::prelude::*;

verus! {

/// The error that `str::parse::<u32>` reports; carried, never inspected.
#[verifier::external_type_specification]
#[verifier::external_body]
pub struct ExParseIntError(core::num::ParseIntError);

/// The error of a `core::fmt::Write` sink; carried, never inspected.
#[verifier::external_type_specification]
#[verifier::external_body]
pub struct ExFmtError(core::fmt::Error);

/// Everything that can go wrong reading or writing a Howick CSV file.
#[derive(Debug)]
pub enum HowickError {
    /// A row is malformed (line numbers start at 1).
    ParseError { line: usize, message: String },
    /// An operation keyword that the parser does not know.
    UnknownOperation(String),
    /// A unit keyword other than `MILLIMETRE`.
    UnknownUnit(String),
    /// A label keyword other than `LABEL_NRM` or `LABEL_INV`.
    UnknownLabel(String),
    /// A row or a value that the frameset needs is absent.
    MissingField(String),
    /// A measure that is not a floating-point literal.
    InvalidNumber { value: String },
    /// A count that is not a `u32` literal.
    InvalidInteger { value: String, source: core::num::ParseIntError },
    /// Writing the output failed.
    Io(core::fmt::Error),
}

/// What an error says, with the texts it carries.
pub enum ErrorView {
    ParseError { line: usize, message: Seq<char> },
    UnknownOperation(Seq<char>),
    UnknownUnit(Seq<char>),
    UnknownLabel(Seq<char>),
    MissingField(Seq<char>),
    InvalidNumber(Seq<char>),
    InvalidInteger { value: Seq<char>, source: core::num::ParseIntError },
    Io,
}

impl View for HowickError {
    type V = ErrorView;

    open spec fn view(&self) -> ErrorView {
        match self {
            HowickError::ParseError { line, message } => ErrorView::ParseError {
                line: *line,
                message: message@,
            },
            HowickError::UnknownOperation(s) => ErrorView::UnknownOperation(s@),
            HowickError::UnknownUnit(s) => ErrorView::UnknownUnit(s@),
            HowickError::UnknownLabel(s) => ErrorView::UnknownLabel(s@),
            HowickError::MissingField(s) => ErrorView::MissingField(s@),
            HowickError::InvalidNumber { value } => ErrorView::InvalidNumber(value@),
            HowickError::InvalidInteger { value, source } => ErrorView::InvalidInteger {
                value: value@,
                source: *source,
            },
            HowickError::Io(_) => ErrorView::Io,
        }
    }
}

} // verus!
