//! The meaning of a scan, as spec functions over the input's characters.
//!
//! Every recognizer takes the input `s`, the cursor (how many characters are
//! consumed) and the current line, and tells where scanning goes on, on which
//! line, and which token, if any, it produced; or the error that stops the scan.
use vstd::prelude::*;

use crate::literals::LiteralView;
use crate::scanner_error::ScannerErrorView;
use crate::token::TokenView;
use crate::token_type::TokenType;

verus! {

pub open spec fn is_digit(c: char) -> bool {
    '0' <= c <= '9'
}

/// A character that may start or continue a bare word.
pub open spec fn is_word_char(c: char) -> bool {
    ('a' <= c <= 'z') || ('A' <= c <= 'Z') || c == '_'
}

pub open spec fn is_line_break(c: char) -> bool {
    c == '\n' || c == '\r'
}

pub open spec fn is_blank(c: char) -> bool {
    c == ' ' || c == '\t'
}

/// The character that an escape `\c` stands for, if `c` names one.
pub open spec fn unescaped(c: char) -> Option<char> {
    if c == 'n' {
        Some('\n')
    } else if c == 'r' {
        Some('\r')
    } else if c == 't' {
        Some('\t')
    } else if c == '"' {
        Some('"')
    } else {
        None
    }
}

/// What one recognizer leaves behind when it succeeds.
pub struct Step {
    pub pos: nat,
    pub line: nat,
    pub token: Option<TokenView>,
}

/// The first error of a scan, with the line on which scanning stopped.
pub struct Failure {
    pub error: ScannerErrorView,
    pub line: nat,
}

pub open spec fn plain_token(kind: TokenType, line: nat) -> TokenView {
    TokenView { kind, value: LiteralView::Empty, lexeme: None, line }
}

pub open spec fn number_token(text: Seq<char>, line: nat) -> TokenView {
    TokenView {
        kind: TokenType::NumberLiteral,
        value: LiteralView::Number(text),
        lexeme: Some(text),
        line,
    }
}

pub open spec fn string_token(text: Seq<char>, line: nat) -> TokenView {
    TokenView {
        kind: TokenType::StringLiteral,
        value: LiteralView::Text(text),
        lexeme: Some(text),
        line,
    }
}

pub open spec fn word_token(text: Seq<char>, line: nat) -> TokenView {
    TokenView {
        kind: TokenType::Identifier,
        value: LiteralView::Identifier(text),
        lexeme: Some(text),
        line,
    }
}

pub open spec fn boolean_token(b: bool, line: nat) -> TokenView {
    TokenView {
        kind: TokenType::BooleanLiteral,
        value: LiteralView::Boolean(b),
        lexeme: None,
        line,
    }
}

pub open spec fn null_token(line: nat) -> TokenView {
    TokenView { kind: TokenType::NullLiteral, value: LiteralView::Null, lexeme: None, line }
}

/// The line break whose first character `c` was just consumed, with the cursor at `q`:
/// the cursor and line after it. A carriage return must be followed by a line feed.
pub open spec fn line_break(s: Seq<char>, q: nat, c: char, line: nat) -> Result<
    (nat, nat),
    ScannerErrorView,
> {
    if c == '\n' {
        Ok((q, line + 1))
    } else if q >= s.len() {
        Err(ScannerErrorView::UnexpectedTermination)
    } else if s[q as int] == '\n' {
        Ok((q + 1, line + 1))
    } else {
        Err(ScannerErrorView::UnexpectedValue(seq!['\\', 'r']))
    }
}

/// A number whose first digit stands at `start`, with the cursor at `q`;
/// `point` tells whether its decimal point has been consumed.
pub open spec fn number_from(s: Seq<char>, start: nat, q: nat, line: nat, point: bool) -> Result<
    Step,
    ScannerErrorView,
>
    decreases s.len() - q,
{
    if q >= s.len() {
        Ok(Step { pos: q, line, token: Some(number_token(s.subrange(start as int, q as int), line)) })
    } else {
        let d = s[q as int];
        if d == '.' {
            if point {
                Err(ScannerErrorView::UnexpectedValue(seq![d]))
            } else if q + 1 < s.len() && is_digit(s[q + 1 as int]) {
                number_from(s, start, q + 2, line, true)
            } else {
                Err(ScannerErrorView::IncompleteNumber)
            }
        } else if is_blank(d) {
            Ok(
                Step {
                    pos: q + 1,
                    line,
                    token: Some(number_token(s.subrange(start as int, q as int), line)),
                },
            )
        } else if is_line_break(d) {
            match line_break(s, q + 1, d, line) {
                Ok((p, l)) => Ok(
                    Step {
                        pos: p,
                        line: l,
                        token: Some(number_token(s.subrange(start as int, q as int), line)),
                    },
                ),
                Err(e) => Err(e),
            }
        } else if is_digit(d) {
            number_from(s, start, q + 1, line, point)
        } else {
            Err(ScannerErrorView::UnexpectedValue(seq![d]))
        }
    }
}

/// A quoted string whose opening quote is consumed, with the cursor at `q`;
/// `text` holds what it has decoded so far.
pub open spec fn string_from(s: Seq<char>, q: nat, line: nat, text: Seq<char>) -> Result<
    Step,
    ScannerErrorView,
>
    decreases s.len() - q,
{
    if q >= s.len() {
        Err(ScannerErrorView::UnterminatedString)
    } else {
        let d = s[q as int];
        if d == '"' {
            Ok(Step { pos: q + 1, line, token: Some(string_token(text, line)) })
        } else if d == '\\' {
            if q + 1 >= s.len() {
                Err(ScannerErrorView::UnexpectedTermination)
            } else {
                match unescaped(s[q + 1 as int]) {
                    Some(c) => string_from(s, q + 2, line, text.push(c)),
                    None => Err(ScannerErrorView::UnexpectedValue(seq![s[q + 1 as int]])),
                }
            }
        } else if is_line_break(d) {
            Err(ScannerErrorView::UnterminatedString)
        } else {
            string_from(s, q + 1, line, text.push(d))
        }
    }
}

/// A line comment, with the cursor at `q`: its text is dropped up to and
/// including the line break that ends it.
pub open spec fn comment_from(s: Seq<char>, q: nat, line: nat) -> Result<
    (nat, nat),
    ScannerErrorView,
>
    decreases s.len() - q,
{
    if q >= s.len() {
        Ok((q, line))
    } else if is_line_break(s[q as int]) {
        line_break(s, q + 1, s[q as int], line)
    } else {
        comment_from(s, q + 1, line)
    }
}

/// A bare word whose first character stands at `start`, with the cursor at `q`.
/// A line break that ends it is consumed and counted first, and the token then
/// carries the new line; any other character that ends it is left for the main loop.
pub open spec fn word_from(s: Seq<char>, start: nat, q: nat, line: nat) -> Result<
    Step,
    ScannerErrorView,
>
    decreases s.len() - q,
{
    if q >= s.len() {
        Ok(Step { pos: q, line, token: Some(word_token(s.subrange(start as int, q as int), line)) })
    } else {
        let d = s[q as int];
        if is_word_char(d) {
            word_from(s, start, q + 1, line)
        } else if is_line_break(d) {
            match line_break(s, q + 1, d, line) {
                Ok((p, l)) => Ok(
                    Step {
                        pos: p,
                        line: l,
                        token: Some(word_token(s.subrange(start as int, q as int), l)),
                    },
                ),
                Err(e) => Err(e),
            }
        } else {
            Ok(
                Step {
                    pos: q,
                    line,
                    token: Some(word_token(s.subrange(start as int, q as int), line)),
                },
            )
        }
    }
}

/// The keyword whose first letter is `c`.
pub open spec fn keyword_of(c: char) -> Seq<char> {
    if c == 't' {
        seq!['t', 'r', 'u', 'e']
    } else if c == 'f' {
        seq!['f', 'a', 'l', 's', 'e']
    } else {
        seq!['n', 'u', 'l', 'l']
    }
}

pub open spec fn keyword_token(c: char, line: nat) -> TokenView {
    if c == 't' {
        boolean_token(true, line)
    } else if c == 'f' {
        boolean_token(false, line)
    } else {
        null_token(line)
    }
}

pub open spec fn keyword_error(c: char) -> ScannerErrorView {
    if c == 't' {
        ScannerErrorView::InvalidTrueLiteral
    } else if c == 'f' {
        ScannerErrorView::InvalidFalseLiteral
    } else {
        ScannerErrorView::InvalidNullLiteral
    }
}

/// A keyword attempt at `start`, whose first `k` letters matched. Where the
/// input leaves the keyword at a word character, or goes on with one after it,
/// the whole run is a bare word instead.
pub open spec fn keyword_from(s: Seq<char>, start: nat, k: nat, line: nat) -> Result<
    Step,
    ScannerErrorView,
>
    decreases keyword_of(s[start as int]).len() - k,
{
    let c = s[start as int];
    let word = keyword_of(c);
    let q = start + k;
    if k >= word.len() {
        if q < s.len() && is_word_char(s[q as int]) {
            word_from(s, start, start + 1, line)
        } else {
            Ok(Step { pos: q, line, token: Some(keyword_token(c, line)) })
        }
    } else if q >= s.len() {
        Err(ScannerErrorView::UnexpectedTermination)
    } else if s[q as int] == word[k as int] {
        keyword_from(s, start, k + 1, line)
    } else if is_word_char(s[q as int]) {
        word_from(s, start, start + 1, line)
    } else {
        Err(keyword_error(c))
    }
}

pub open spec fn plain_kind(c: char) -> Option<TokenType> {
    if c == '#' {
        Some(TokenType::Pound)
    } else if c == '(' {
        Some(TokenType::RoundOpen)
    } else if c == ')' {
        Some(TokenType::RoundClose)
    } else if c == '{' {
        Some(TokenType::CurlyOpen)
    } else if c == '}' {
        Some(TokenType::CurlyClose)
    } else if c == '$' {
        Some(TokenType::VariableMarker)
    } else {
        None
    }
}

/// One round of the main loop: the character at `p` decides what is recognized.
pub open spec fn step(s: Seq<char>, p: nat, line: nat) -> Result<Step, ScannerErrorView>
    recommends
        p < s.len(),
{
    let c = s[p as int];
    match plain_kind(c) {
        Some(kind) => Ok(Step { pos: p + 1, line, token: Some(plain_token(kind, line)) }),
        None => {
            if c == 't' || c == 'f' || c == 'n' {
            keyword_from(s, p, 1, line)
        } else if is_blank(c) {
            Ok(Step { pos: p + 1, line, token: None })
        } else if is_line_break(c) {
            match line_break(s, p + 1, c, line) {
                Ok((q, l)) => Ok(Step { pos: q, line: l, token: None }),
                Err(e) => Err(e),
            }
        } else if c == '/' {
            if p + 1 < s.len() && s[p + 1 as int] == '/' {
                match comment_from(s, p + 1, line) {
                    Ok((q, l)) => Ok(Step { pos: q, line: l, token: None }),
                    Err(e) => Err(e),
                }
            } else {
                Err(ScannerErrorView::UnexpectedValue(seq!['/']))
            }
        } else if is_digit(c) {
            number_from(s, p, p + 1, line, false)
        } else if c == '"' {
            string_from(s, p + 1, line, seq![])
        } else if is_word_char(c) {
            word_from(s, p, p + 1, line)
        } else {
            Err(ScannerErrorView::UnexpectedValue(seq![c]))
        }
        },
    }
}

pub open spec fn token_seq(t: Option<TokenView>) -> Seq<TokenView> {
    match t {
        Some(t) => seq![t],
        None => seq![],
    }
}

/// The tokens of `s` from the cursor `p` on, ending with the end-of-input token.
pub open spec fn scan_from(s: Seq<char>, p: nat, line: nat) -> Result<Seq<TokenView>, Failure>
    decreases s.len() - p,
    via scan_from_decreases
{
    if p >= s.len() {
        Ok(seq![plain_token(TokenType::EndOfInput, line)])
    } else {
        match step(s, p, line) {
            Ok(st) => match scan_from(s, st.pos, st.line) {
                Ok(rest) => Ok(token_seq(st.token) + rest),
                Err(f) => Err(f),
            },
            Err(e) => Err(Failure { error: e, line }),
        }
    }
}

/// The tokens of a whole input, scanned from its first line.
pub open spec fn scan_text(s: Seq<char>) -> Result<Seq<TokenView>, Failure> {
    scan_from(s, 0, 1)
}

pub proof fn lemma_line_break(s: Seq<char>, q: nat, c: char, line: nat)
    requires
        q <= s.len(),
    ensures
        line_break(s, q, c, line) matches Ok((p, l)) ==> q <= p <= s.len() && l == line + 1,
{
}

pub proof fn lemma_number_from(s: Seq<char>, start: nat, q: nat, line: nat, point: bool)
    requires
        q <= s.len(),
    ensures
        number_from(s, start, q, line, point) matches Ok(st) ==> q <= st.pos <= s.len() && line
            <= st.line <= line + 1,
    decreases s.len() - q,
{
    if q < s.len() {
        let d = s[q as int];
        if d == '.' {
            if !point && q + 1 < s.len() && is_digit(s[q + 1 as int]) {
                lemma_number_from(s, start, q + 2, line, true);
            }
        } else if is_line_break(d) {
            lemma_line_break(s, q + 1, d, line);
        } else if is_digit(d) {
            lemma_number_from(s, start, q + 1, line, point);
        }
    }
}

pub proof fn lemma_string_from(s: Seq<char>, q: nat, line: nat, text: Seq<char>)
    requires
        q <= s.len(),
    ensures
        string_from(s, q, line, text) matches Ok(st) ==> q < st.pos <= s.len() && st.line == line,
    decreases s.len() - q,
{
    if q < s.len() {
        let d = s[q as int];
        if d == '\\' {
            if q + 1 < s.len() {
                if let Some(c) = unescaped(s[q + 1 as int]) {
                    lemma_string_from(s, q + 2, line, text.push(c));
                }
            }
        } else if d != '"' && !is_line_break(d) {
            lemma_string_from(s, q + 1, line, text.push(d));
        }
    }
}

pub proof fn lemma_comment_from(s: Seq<char>, q: nat, line: nat)
    requires
        q <= s.len(),
    ensures
        comment_from(s, q, line) matches Ok((p, l)) ==> q <= p <= s.len() && line <= l <= line
            + 1,
    decreases s.len() - q,
{
    if q < s.len() {
        if is_line_break(s[q as int]) {
            lemma_line_break(s, q + 1, s[q as int], line);
        } else {
            lemma_comment_from(s, q + 1, line);
        }
    }
}

pub proof fn lemma_word_from(s: Seq<char>, start: nat, q: nat, line: nat)
    requires
        q <= s.len(),
    ensures
        word_from(s, start, q, line) matches Ok(st) ==> q <= st.pos <= s.len() && line <= st.line
            <= line + 1,
    decreases s.len() - q,
{
    if q < s.len() {
        let d = s[q as int];
        if is_word_char(d) {
            lemma_word_from(s, start, q + 1, line);
        } else if is_line_break(d) {
            lemma_line_break(s, q + 1, d, line);
        }
    }
}

pub proof fn lemma_keyword_from(s: Seq<char>, start: nat, k: nat, line: nat)
    requires
        1 <= k,
        start + k <= s.len(),
    ensures
        keyword_from(s, start, k, line) matches Ok(st) ==> start < st.pos <= s.len() && line
            <= st.line <= line + 1,
    decreases keyword_of(s[start as int]).len() - k,
{
    let word = keyword_of(s[start as int]);
    let q = start + k;
    lemma_word_from(s, start, start + 1, line);
    if k < word.len() && q < s.len() && s[q as int] == word[k as int] {
        lemma_keyword_from(s, start, k + 1, line);
    }
}

pub proof fn lemma_step(s: Seq<char>, p: nat, line: nat)
    requires
        p < s.len(),
    ensures
        step(s, p, line) matches Ok(st) ==> p < st.pos <= s.len() && line <= st.line <= line + 1,
{
    let c = s[p as int];
    lemma_line_break(s, p + 1, c, line);
    lemma_keyword_from(s, p, 1, line);
    lemma_number_from(s, p, p + 1, line, false);
    lemma_string_from(s, p + 1, line, seq![]);
    lemma_word_from(s, p, p + 1, line);
    if p + 1 < s.len() {
        lemma_comment_from(s, p + 1, line);
    }
}

#[via_fn]
proof fn scan_from_decreases(s: Seq<char>, p: nat, line: nat) {
    if p < s.len() {
        lemma_step(s, p, line);
    }
}

} // verus!
