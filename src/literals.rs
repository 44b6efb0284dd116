use vstd::prelude::*;

verus! {

/// The decoded value that a token carries.
///
/// A number is kept as its decimal numeral (digits, optionally one interior
/// point with digits on both sides), exactly as it appeared in the input.
#[derive(Debug)]
pub enum Literals {
    /// No payload: brackets, markers and the end of the input.
    Empty,
    /// A decimal numeral.
    Number(String),
    /// The decoded text of a quoted string.
    Text(String),
    /// A bare ascii word.
    Identifier(String),
    /// `true` or `false`.
    Boolean(bool),
    /// `null`.
    Null,
}

/// The mathematical value of a [`Literals`].
pub enum LiteralView {
    Empty,
    Number(Seq<char>),
    Text(Seq<char>),
    Identifier(Seq<char>),
    Boolean(bool),
    Null,
}

impl View for Literals {
    type V = LiteralView;

    open spec fn view(&self) -> LiteralView {
        match self {
            Literals::Empty => LiteralView::Empty,
            Literals::Number(s) => LiteralView::Number(s@),
            Literals::Text(s) => LiteralView::Text(s@),
            Literals::Identifier(s) => LiteralView::Identifier(s@),
            Literals::Boolean(b) => LiteralView::Boolean(*b),
            Literals::Null => LiteralView::Null,
        }
    }
}

} // verus!
