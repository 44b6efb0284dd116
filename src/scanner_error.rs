use vstd::prelude::*;

use crate::text::push_text;

verus! {

/// Why a scan stopped.
#[derive(Debug)]
pub enum ScannerError {
    /// A character, or a short text, that no rule accepts where it stands.
    UnexpectedValue(String),
    /// A decimal point that no digit follows.
    IncompleteNumber,
    /// The input ended where at least one more character was required.
    UnexpectedTermination,
    /// A quoted string met a raw line break or the end of the input before its closing quote.
    UnterminatedString,
    /// A word starting with `t` left `true` at a character that cannot continue a word.
    InvalidTrueLiteral,
    /// A word starting with `f` left `false` at a character that cannot continue a word.
    InvalidFalseLiteral,
    /// A word starting with `n` left `null` at a character that cannot continue a word.
    InvalidNullLiteral,
}

/// The mathematical value of a [`ScannerError`].
pub enum ScannerErrorView {
    UnexpectedValue(Seq<char>),
    IncompleteNumber,
    UnexpectedTermination,
    UnterminatedString,
    InvalidTrueLiteral,
    InvalidFalseLiteral,
    InvalidNullLiteral,
}

impl View for ScannerError {
    type V = ScannerErrorView;

    open spec fn view(&self) -> ScannerErrorView {
        match self {
            ScannerError::UnexpectedValue(s) => ScannerErrorView::UnexpectedValue(s@),
            ScannerError::IncompleteNumber => ScannerErrorView::IncompleteNumber,
            ScannerError::UnexpectedTermination => ScannerErrorView::UnexpectedTermination,
            ScannerError::UnterminatedString => ScannerErrorView::UnterminatedString,
            ScannerError::InvalidTrueLiteral => ScannerErrorView::InvalidTrueLiteral,
            ScannerError::InvalidFalseLiteral => ScannerErrorView::InvalidFalseLiteral,
            ScannerError::InvalidNullLiteral => ScannerErrorView::InvalidNullLiteral,
        }
    }
}

/// The human-readable text of an error.
pub open spec fn error_message(e: ScannerErrorView) -> Seq<char> {
    match e {
        ScannerErrorView::UnexpectedValue(v) => "Unexpected value: "@ + v,
        ScannerErrorView::IncompleteNumber => "Incomplete number"@,
        ScannerErrorView::UnexpectedTermination => "Unexpected Termination"@,
        ScannerErrorView::UnterminatedString => "Unexpected string termination"@,
        ScannerErrorView::InvalidTrueLiteral => "Invalid true literal"@,
        ScannerErrorView::InvalidFalseLiteral => "Invalid false literal"@,
        ScannerErrorView::InvalidNullLiteral => "Invalid null literal"@,
    }
}

impl ScannerError {
    /// The text that describes this error to a person.
    pub fn message(&self) -> (r: String)
        ensures
            r@ == error_message(self@),
    {
        match self {
            ScannerError::UnexpectedValue(v) => {
                let mut r = String::from_str("Unexpected value: ");
                push_text(&mut r, v);
                r
            },
            ScannerError::IncompleteNumber => String::from_str("Incomplete number"),
            ScannerError::UnexpectedTermination => String::from_str("Unexpected Termination"),
            ScannerError::UnterminatedString => String::from_str("Unexpected string termination"),
            ScannerError::InvalidTrueLiteral => String::from_str("Invalid true literal"),
            ScannerError::InvalidFalseLiteral => String::from_str("Invalid false literal"),
            ScannerError::InvalidNullLiteral => String::from_str("Invalid null literal"),
        }
    }
}

} // verus!
