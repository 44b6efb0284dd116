use vstd::prelude::*;

verus! {

/// The kind of a token.
#[derive(Debug, Clone, Copy, PartialEq, Eq, Structural)]
pub enum TokenType {
    /// `(`
    RoundOpen,
    /// `)`
    RoundClose,
    /// `{`
    CurlyOpen,
    /// `}`
    CurlyClose,
    /// `#`
    Pound,
    /// `$`
    VariableMarker,
    /// A bare ascii word.
    Identifier,
    /// A quoted string.
    StringLiteral,
    /// A decimal number.
    NumberLiteral,
    /// `true` or `false`.
    BooleanLiteral,
    /// `null`.
    NullLiteral,
    /// The end of the input; always the last token.
    EndOfInput,
}

} // verus!
