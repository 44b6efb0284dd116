//! What holds of every scan, proved from the meaning in [`crate::grammar`].
use vstd::prelude::*;

use crate::grammar::{
    comment_from, is_blank, is_digit, is_line_break, is_word_char, keyword_from, keyword_of,
    keyword_token, number_from, number_token, plain_kind, plain_token, scan_from, scan_text, step,
    string_from, string_token, token_seq, unescaped, word_from, word_token, lemma_step, Failure, Step,
};
use crate::scanner_error::ScannerErrorView;
use crate::scanner::prepend;
use crate::literals::LiteralView;
use crate::token::TokenView;
use crate::token_type::TokenType;

verus! {

/// The tokens that a run of marks `# ( ) { } $` stands for, all on `line`.
pub open spec fn mark_tokens(s: Seq<char>, line: nat) -> Seq<TokenView> {
    Seq::new(s.len(), |i: int| plain_token(plain_kind(s[i])->Some_0, line))
}

proof fn lemma_marks_from(s: Seq<char>, p: nat)
    requires
        p <= s.len(),
        forall|i: int| 0 <= i < s.len() ==> plain_kind(#[trigger] s[i]) is Some,
    ensures
        scan_from(s, p, 1) == Ok::<Seq<TokenView>, Failure>(
            mark_tokens(s.subrange(p as int, s.len() as int), 1).push(
                plain_token(TokenType::EndOfInput, 1),
            ),
        ),
    decreases s.len() - p,
{
    let eof = plain_token(TokenType::EndOfInput, 1);
    if p < s.len() {
        lemma_marks_from(s, p + 1);
        let st = step(s, p, 1);
        assert(plain_kind(s[p as int]) is Some);
        let rest = mark_tokens(s.subrange(p + 1 as int, s.len() as int), 1).push(eof);
        assert(mark_tokens(s.subrange(p as int, s.len() as int), 1).push(eof) =~= seq![
            plain_token(plain_kind(s[p as int])->Some_0, 1),
        ] + rest);
    } else {
        assert(mark_tokens(s.subrange(p as int, s.len() as int), 1) =~= Seq::<TokenView>::empty());
        assert(seq![eof] =~= Seq::<TokenView>::empty().push(eof));
    }
}

/// An input made only of the marks `# ( ) { } $` gives one token per
/// character, of the matching kind and in order, then the end-of-input token.
pub proof fn law_marks(s: Seq<char>)
    requires
        forall|i: int| 0 <= i < s.len() ==> plain_kind(#[trigger] s[i]) is Some,
    ensures
        scan_text(s) == Ok::<Seq<TokenView>, Failure>(
            mark_tokens(s, 1).push(plain_token(TokenType::EndOfInput, 1)),
        ),
{
    lemma_marks_from(s, 0);
    assert(s.subrange(0, s.len() as int) =~= s);
}

/// The empty input gives the end-of-input token alone.
pub proof fn law_empty()
    ensures
        scan_text(Seq::<char>::empty()) == Ok::<Seq<TokenView>, Failure>(
            seq![plain_token(TokenType::EndOfInput, 1)],
        ),
{
}

proof fn lemma_comment_skip(s: Seq<char>, q: nat, e: nat, line: nat)
    requires
        q <= e < s.len(),
        forall|i: int| q <= i < e ==> !is_line_break(#[trigger] s[i]),
    ensures
        comment_from(s, q, line) == comment_from(s, e, line),
    decreases e - q,
{
    if q < e {
        lemma_comment_skip(s, q + 1, e, line);
    }
}

/// A line comment whose text holds no line break, followed by `#` on the next
/// line: the comment gives no token, and the `#` token stands on line 2.
pub proof fn law_comment_then_mark(c: Seq<char>)
    requires
        forall|i: int| 0 <= i < c.len() ==> !is_line_break(#[trigger] c[i]),
    ensures
        scan_text(seq!['/', '/'] + c + seq!['\n', '#']) == Ok::<Seq<TokenView>, Failure>(
            seq![plain_token(TokenType::Pound, 2), plain_token(TokenType::EndOfInput, 2)],
        ),
{
    let s = seq!['/', '/'] + c + seq!['\n', '#'];
    let n = c.len();
    assert(s[0] == '/' && s[1] == '/');
    assert(s[n as int + 2] == '\n');
    assert(s[n as int + 3] == '#');
    assert forall|i: int| 1 <= i < n + 2 implies !is_line_break(#[trigger] s[i]) by {
        if i >= 2 {
            assert(s[i] == c[i - 2]);
        }
    }
    lemma_comment_skip(s, 1, n + 2, 1);
    assert(comment_from(s, n + 2, 1) == Ok::<(nat, nat), ScannerErrorView>((n + 3, 2)));
    assert(step(s, 0, 1) == Ok::<Step, ScannerErrorView>(Step { pos: n + 3, line: 2, token: None }));
    assert(scan_from(s, n + 4, 2) == Ok::<Seq<TokenView>, Failure>(seq![plain_token(TokenType::EndOfInput, 2)]));
    assert(scan_from(s, n + 3, 2) == Ok::<Seq<TokenView>, Failure>(
        seq![plain_token(TokenType::Pound, 2)] + seq![plain_token(TokenType::EndOfInput, 2)],
    ));
    assert(seq![plain_token(TokenType::Pound, 2)] + seq![plain_token(TokenType::EndOfInput, 2)] =~= seq![
        plain_token(TokenType::Pound, 2),
        plain_token(TokenType::EndOfInput, 2),
    ]);
    assert(Seq::<TokenView>::empty() + seq![plain_token(TokenType::Pound, 2), plain_token(TokenType::EndOfInput, 2)] =~= seq![
        plain_token(TokenType::Pound, 2),
        plain_token(TokenType::EndOfInput, 2),
    ]);
}

proof fn lemma_keyword_match(s: Seq<char>, k: nat, line: nat)
    requires
        s.len() > 0,
        1 <= k <= keyword_of(s[0]).len() <= s.len(),
        s.subrange(0, keyword_of(s[0]).len() as int) == keyword_of(s[0]),
    ensures
        keyword_from(s, 0, k, line) == keyword_from(s, 0, keyword_of(s[0]).len(), line),
    decreases keyword_of(s[0]).len() - k,
{
    let w = keyword_of(s[0]);
    if k < w.len() {
        assert(s[k as int] == s.subrange(0, w.len() as int)[k as int]);
        lemma_keyword_match(s, k + 1, line);
    }
}

/// `true`, `false` or `null`, followed by the end of the input or by a
/// character that cannot continue a word, gives its one literal token, and
/// scanning goes on right after the word.
pub proof fn law_keyword(c: char, rest: Seq<char>)
    requires
        c == 't' || c == 'f' || c == 'n',
        rest.len() == 0 || !is_word_char(rest[0]),
    ensures
        scan_text(keyword_of(c) + rest) == prepend(
            seq![keyword_token(c, 1)],
            scan_from(keyword_of(c) + rest, keyword_of(c).len(), 1),
        ),
{
    let w = keyword_of(c);
    let s = w + rest;
    assert(s[0] == c);
    assert(s.subrange(0, w.len() as int) =~= w);
    lemma_keyword_match(s, 1, 1);
    if rest.len() > 0 {
        assert(s[w.len() as int] == rest[0]);
    }
    assert(step(s, 0, 1) == Ok::<Step, ScannerErrorView>(
        Step { pos: w.len(), line: 1, token: Some(keyword_token(c, 1)) },
    ));
}

pub open spec fn all_digits(t: Seq<char>) -> bool {
    forall|i: int| 0 <= i < t.len() ==> is_digit(#[trigger] t[i])
}

/// A decimal numeral: digits, optionally with one interior point that has
/// digits on both sides.
pub open spec fn is_numeral(n: Seq<char>) -> bool {
    ||| n.len() > 0 && all_digits(n)
    ||| exists|d: int|
        0 < d < n.len() - 1 && n[d] == '.' && #[trigger] all_digits(n.take(d)) && all_digits(
            n.skip(d + 1),
        )
}

proof fn lemma_digits(s: Seq<char>, start: nat, q: nat, e: nat, line: nat, point: bool)
    requires
        q <= e <= s.len(),
        forall|i: int| q <= i < e ==> is_digit(#[trigger] s[i]),
    ensures
        number_from(s, start, q, line, point) == number_from(s, start, e, line, point),
    decreases e - q,
{
    if q < e {
        lemma_digits(s, start, q + 1, e, line, point);
    }
}

/// A well-formed numeral, followed by the end of the input or by a space or
/// tab, gives one number token whose value and raw text are the numeral's
/// characters; scanning goes on after the blank that ends it.
pub proof fn law_number(n: Seq<char>, rest: Seq<char>)
    requires
        is_numeral(n),
        rest.len() == 0 || is_blank(rest[0]),
    ensures
        scan_text(n + rest) == prepend(
            seq![number_token(n, 1)],
            scan_from(
                n + rest,
                if rest.len() == 0 {
                    n.len()
                } else {
                    n.len() + 1
                },
                1,
            ),
        ),
{
    let s = n + rest;
    let len = n.len();
    let next: nat = if rest.len() == 0 {
        len
    } else {
        len + 1
    };
    assert(s.subrange(0, len as int) =~= n);
    if rest.len() > 0 {
        assert(s[len as int] == rest[0]);
    }
    if len > 0 && all_digits(n) {
        assert(is_digit(s[0]));
        assert forall|i: int| 1 <= i < len implies is_digit(#[trigger] s[i]) by {
            assert(s[i] == n[i]);
        }
        lemma_digits(s, 0, 1, len, 1, false);
        assert(number_from(s, 0, 1, 1, false) == Ok::<Step, ScannerErrorView>(
            Step { pos: next, line: 1, token: Some(number_token(n, 1)) },
        ));
    } else {
        let d = choose|d: int|
            0 < d < n.len() - 1 && n[d] == '.' && #[trigger] all_digits(n.take(d)) && all_digits(
                n.skip(d + 1),
            );
        assert(is_digit(n.take(d)[0]));
        assert(is_digit(s[0]));
        assert forall|i: int| 1 <= i < d implies is_digit(#[trigger] s[i]) by {
            assert(s[i] == n.take(d)[i]);
        }
        assert forall|i: int| d + 2 <= i < len implies is_digit(#[trigger] s[i]) by {
            assert(s[i] == n.skip(d + 1)[i - d - 1]);
        }
        assert(s[d + 1] == n.skip(d + 1)[0]);
        assert(s[d] == '.');
        lemma_digits(s, 0, 1, d as nat, 1, false);
        lemma_digits(s, 0, (d + 2) as nat, len, 1, true);
        assert(number_from(s, 0, d as nat, 1, false) == number_from(s, 0, (d + 2) as nat, 1, true));
        assert(number_from(s, 0, 1, 1, false) == Ok::<Step, ScannerErrorView>(
            Step { pos: next, line: 1, token: Some(number_token(n, 1)) },
        ));
    }
    assert(step(s, 0, 1) == Ok::<Step, ScannerErrorView>(
        Step { pos: next, line: 1, token: Some(number_token(n, 1)) },
    ));
}

/// The body of a quoted string that uses only the escapes `\n`, `\r`, `\t`
/// and `\"`, and holds no raw line break and no bare quote.
pub open spec fn is_string_body(w: Seq<char>) -> bool
    decreases w.len(),
{
    if w.len() == 0 {
        true
    } else if w[0] == '\\' {
        w.len() >= 2 && unescaped(w[1]) is Some && is_string_body(w.skip(2))
    } else {
        w[0] != '"' && !is_line_break(w[0]) && is_string_body(w.skip(1))
    }
}

/// The text that a string body stands for, each escape replaced by its character.
pub open spec fn unescape_body(w: Seq<char>) -> Seq<char>
    decreases w.len(),
{
    if w.len() == 0 {
        seq![]
    } else if w[0] == '\\' && w.len() >= 2 {
        seq![unescaped(w[1])->Some_0] + unescape_body(w.skip(2))
    } else {
        seq![w[0]] + unescape_body(w.skip(1))
    }
}

proof fn lemma_string_body(s: Seq<char>, q: nat, w: Seq<char>, text: Seq<char>, line: nat)
    requires
        is_string_body(w),
        q + w.len() < s.len(),
        s.subrange(q as int, q + w.len() as int) == w,
        s[q + w.len() as int] == '"',
    ensures
        string_from(s, q, line, text) == Ok::<Step, ScannerErrorView>(
            Step {
                pos: q + w.len() + 1,
                line,
                token: Some(string_token(text + unescape_body(w), line)),
            },
        ),
    decreases w.len(),
{
    if w.len() == 0 {
        assert(text + unescape_body(w) =~= text);
    } else if w[0] == '\\' {
        let c = unescaped(w[1])->Some_0;
        assert(s[q as int] == w[0]);
        assert(s[q + 1 as int] == w[1]);
        assert(s.subrange(q + 2 as int, q + 2 + w.skip(2).len() as int) =~= w.skip(2));
        lemma_string_body(s, q + 2, w.skip(2), text.push(c), line);
        assert(text.push(c) + unescape_body(w.skip(2)) =~= text + unescape_body(w));
    } else {
        assert(s[q as int] == w[0]);
        assert(s.subrange(q + 1 as int, q + 1 + w.skip(1).len() as int) =~= w.skip(1));
        lemma_string_body(s, q + 1, w.skip(1), text.push(w[0]), line);
        assert(text.push(w[0]) + unescape_body(w.skip(1)) =~= text + unescape_body(w));
    }
}

/// A quoted string whose body uses only the supported escapes and holds no raw
/// line break gives one string token whose value is the body with its escapes
/// replaced; scanning goes on after the closing quote.
pub proof fn law_string(w: Seq<char>, rest: Seq<char>)
    requires
        is_string_body(w),
    ensures
        scan_text(seq!['"'] + w + seq!['"'] + rest) == prepend(
            seq![string_token(unescape_body(w), 1)],
            scan_from(seq!['"'] + w + seq!['"'] + rest, w.len() + 2, 1),
        ),
{
    let s = seq!['"'] + w + seq!['"'] + rest;
    assert(s[0] == '"');
    assert(s.subrange(1, 1 + w.len() as int) =~= w);
    assert(s[1 + w.len() as int] == '"');
    lemma_string_body(s, 1, w, seq![], 1);
    assert(seq![] + unescape_body(w) =~= unescape_body(w));
}

/// How a character is written inside a quoted string.
pub open spec fn escape_char(c: char) -> Seq<char> {
    if c == '\n' {
        seq!['\\', 'n']
    } else if c == '\r' {
        seq!['\\', 'r']
    } else if c == '\t' {
        seq!['\\', 't']
    } else if c == '"' {
        seq!['\\', '"']
    } else {
        seq![c]
    }
}

/// A text written as the body of a quoted string.
pub open spec fn escaped(v: Seq<char>) -> Seq<char>
    decreases v.len(),
{
    if v.len() == 0 {
        seq![]
    } else {
        escape_char(v[0]) + escaped(v.skip(1))
    }
}

pub open spec fn no_backslash(v: Seq<char>) -> bool {
    forall|i: int| 0 <= i < v.len() ==> #[trigger] v[i] != '\\'
}

proof fn lemma_escaped(v: Seq<char>)
    requires
        no_backslash(v),
    ensures
        is_string_body(escaped(v)),
        unescape_body(escaped(v)) == v,
    decreases v.len(),
{
    if v.len() > 0 {
        let t = v.skip(1);
        assert(no_backslash(t)) by {
            assert forall|i: int| 0 <= i < t.len() implies #[trigger] t[i] != '\\' by {
                assert(t[i] == v[i + 1]);
            }
        }
        lemma_escaped(t);
        let e = escaped(v);
        let c = v[0];
        let k = escape_char(c).len() as int;
        assert(e.skip(k) =~= escaped(t));
        assert(v =~= seq![c] + t);
    }
}

/// Writing a text without backslashes as a quoted string, escaping line feeds,
/// carriage returns, tabs and quotes, and scanning it gives that text back.
pub proof fn law_escape_round_trip(v: Seq<char>)
    requires
        no_backslash(v),
    ensures
        scan_text(seq!['"'] + escaped(v) + seq!['"']) == Ok::<Seq<TokenView>, Failure>(
            seq![string_token(v, 1), plain_token(TokenType::EndOfInput, 1)],
        ),
{
    lemma_escaped(v);
    let w = escaped(v);
    let s = seq!['"'] + w + seq!['"'];
    law_string(w, seq![]);
    assert(s + Seq::<char>::empty() =~= s);
    assert(seq![string_token(v, 1)] + seq![plain_token(TokenType::EndOfInput, 1)] =~= seq![
        string_token(v, 1),
        plain_token(TokenType::EndOfInput, 1),
    ]);
}

/// Whether the token, where it is a string, decodes to a text without backslashes.
pub open spec fn text_without_backslash(t: TokenView) -> bool {
    match t.value {
        LiteralView::Text(x) => no_backslash(x),
        _ => true,
    }
}

/// A token carries raw text exactly when it is a word, a string or a number.
pub open spec fn lexeme_fits_kind(t: TokenView) -> bool {
    t.lexeme is Some <==> (t.kind == TokenType::Identifier || t.kind == TokenType::StringLiteral
        || t.kind == TokenType::NumberLiteral)
}

spec fn step_token_ok(o: Result<Step, ScannerErrorView>) -> bool {
    match o {
        Ok(st) => match st.token {
            Some(t) => text_without_backslash(t) && lexeme_fits_kind(t),
            None => true,
        },
        Err(_) => true,
    }
}

proof fn lemma_number_text(s: Seq<char>, start: nat, q: nat, line: nat, point: bool)
    ensures
        step_token_ok(number_from(s, start, q, line, point)),
    decreases s.len() - q,
{
    if q < s.len() {
        lemma_number_text(s, start, q + 1, line, point);
        if q + 1 < s.len() {
            lemma_number_text(s, start, q + 2, line, true);
        }
    }
}

proof fn lemma_word_text(s: Seq<char>, start: nat, q: nat, line: nat)
    ensures
        step_token_ok(word_from(s, start, q, line)),
    decreases s.len() - q,
{
    if q < s.len() {
        lemma_word_text(s, start, q + 1, line);
    }
}

proof fn lemma_keyword_text(s: Seq<char>, start: nat, k: nat, line: nat)
    ensures
        step_token_ok(keyword_from(s, start, k, line)),
    decreases keyword_of(s[start as int]).len() - k,
{
    lemma_word_text(s, start, start + 1, line);
    if k < keyword_of(s[start as int]).len() {
        lemma_keyword_text(s, start, k + 1, line);
    }
}

proof fn lemma_string_text(s: Seq<char>, q: nat, line: nat, text: Seq<char>)
    requires
        no_backslash(text),
    ensures
        step_token_ok(string_from(s, q, line, text)),
    decreases s.len() - q,
{
    if q < s.len() {
        let d = s[q as int];
        if d == '\\' {
            if q + 1 < s.len() {
                if let Some(c) = unescaped(s[q + 1 as int]) {
                    assert(no_backslash(text.push(c))) by {
                        assert forall|i: int| 0 <= i < text.len() + 1 implies #[trigger] text.push(
                            c,
                        )[i] != '\\' by {
                            if i < text.len() {
                                assert(text.push(c)[i] == text[i]);
                            }
                        }
                    }
                    lemma_string_text(s, q + 2, line, text.push(c));
                }
            }
        } else if d != '"' && !is_line_break(d) {
            assert(no_backslash(text.push(d))) by {
                assert forall|i: int| 0 <= i < text.len() + 1 implies #[trigger] text.push(d)[i]
                    != '\\' by {
                    if i < text.len() {
                        assert(text.push(d)[i] == text[i]);
                    }
                }
            }
            lemma_string_text(s, q + 1, line, text.push(d));
        }
    }
}

proof fn lemma_scan_tokens_ok(s: Seq<char>, p: nat, line: nat, toks: Seq<TokenView>)
    requires
        scan_from(s, p, line) == Ok::<Seq<TokenView>, Failure>(toks),
    ensures
        forall|i: int|
            0 <= i < toks.len() ==> text_without_backslash(#[trigger] toks[i]) && lexeme_fits_kind(
                toks[i],
            ),
    decreases s.len() - p,
{
    if p < s.len() {
        lemma_step(s, p, line);
        let c = s[p as int];
        lemma_keyword_text(s, p, 1, line);
        lemma_number_text(s, p, p + 1, line, false);
        lemma_string_text(s, p + 1, line, seq![]);
        lemma_word_text(s, p, p + 1, line);
        assert(step_token_ok(step(s, p, line)));
        if let Ok(st) = step(s, p, line) {
            if let Ok(rest) = scan_from(s, st.pos, st.line) {
                lemma_scan_tokens_ok(s, st.pos, st.line, rest);
                assert(toks == token_seq(st.token) + rest);
                assert forall|i: int| 0 <= i < toks.len() implies text_without_backslash(
                    #[trigger] toks[i],
                ) && lexeme_fits_kind(toks[i]) by {
                    if i >= token_seq(st.token).len() {
                        assert(toks[i] == rest[i - token_seq(st.token).len()]);
                    }
                }
            }
        }
    }
}

/// Re-writing the decoded value of any string token of a scan as a quoted
/// string, with the same escapes, and scanning that gives the same value.
pub proof fn law_string_value_round_trip(s: Seq<char>, toks: Seq<TokenView>, i: int)
    requires
        scan_text(s) == Ok::<Seq<TokenView>, Failure>(toks),
        0 <= i < toks.len(),
        toks[i].value is Text,
    ensures
        scan_text(seq!['"'] + escaped(toks[i].value->Text_0) + seq!['"']) == Ok::<
            Seq<TokenView>,
            Failure,
        >(seq![string_token(toks[i].value->Text_0, 1), plain_token(TokenType::EndOfInput, 1)]),
{
    lemma_scan_tokens_ok(s, 0, 1, toks);
    assert(text_without_backslash(toks[i]));
    law_escape_round_trip(toks[i].value->Text_0);
}

/// Characters that a quoted string takes over as they are.
pub open spec fn is_plain_text(w: Seq<char>) -> bool {
    forall|i: int|
        0 <= i < w.len() ==> #[trigger] w[i] != '"' && w[i] != '\\' && !is_line_break(w[i])
}

proof fn lemma_plain_run(s: Seq<char>, q: nat, e: nat, line: nat, text: Seq<char>)
    requires
        q <= e <= s.len(),
        forall|i: int| q <= i < e ==> #[trigger] s[i] != '"' && s[i] != '\\' && !is_line_break(s[i]),
        e == s.len() || is_line_break(s[e as int]),
    ensures
        string_from(s, q, line, text) == Err::<Step, ScannerErrorView>(
            ScannerErrorView::UnterminatedString,
        ),
    decreases e - q,
{
    if q < e {
        lemma_plain_run(s, q + 1, e, line, text.push(s[q as int]));
    }
}

/// A quote followed by plain characters and then the end of the input, or a
/// raw line break, fails as an unterminated string on line 1.
pub proof fn law_unterminated_string(w: Seq<char>, rest: Seq<char>)
    requires
        is_plain_text(w),
        rest.len() == 0 || is_line_break(rest[0]),
    ensures
        scan_text(seq!['"'] + w + rest) == Err::<Seq<TokenView>, Failure>(
            Failure { error: ScannerErrorView::UnterminatedString, line: 1 },
        ),
{
    let s = seq!['"'] + w + rest;
    assert(s[0] == '"');
    assert forall|i: int| 1 <= i < 1 + w.len() implies #[trigger] s[i] != '"' && s[i] != '\\'
        && !is_line_break(s[i]) by {
        assert(s[i] == w[i - 1]);
    }
    if rest.len() > 0 {
        assert(s[1 + w.len() as int] == rest[0]);
    }
    lemma_plain_run(s, 1, 1 + w.len(), 1, seq![]);
}

/// Digits followed by a decimal point at the end of the input fail as an
/// incomplete number on line 1.
pub proof fn law_incomplete_number(d: Seq<char>)
    requires
        d.len() > 0,
        all_digits(d),
    ensures
        scan_text(d.push('.')) == Err::<Seq<TokenView>, Failure>(
            Failure { error: ScannerErrorView::IncompleteNumber, line: 1 },
        ),
{
    let s = d.push('.');
    assert(s[0] == d[0]);
    assert(is_digit(s[0]));
    assert forall|i: int| 1 <= i < d.len() implies is_digit(#[trigger] s[i]) by {
        assert(s[i] == d[i]);
    }
    lemma_digits(s, 0, 1, d.len(), 1, false);
    assert(s[d.len() as int] == '.');
}

pub open spec fn all_word_chars(s: Seq<char>) -> bool {
    forall|i: int| 0 <= i < s.len() ==> is_word_char(#[trigger] s[i])
}

proof fn lemma_word_run(s: Seq<char>, q: nat, line: nat)
    requires
        1 <= q <= s.len(),
        all_word_chars(s),
    ensures
        word_from(s, 0, q, line) == Ok::<Step, ScannerErrorView>(
            Step { pos: s.len(), line, token: Some(word_token(s, line)) },
        ),
    decreases s.len() - q,
{
    if q < s.len() {
        lemma_word_run(s, q + 1, line);
    } else {
        assert(s.subrange(0, q as int) =~= s);
    }
}

proof fn lemma_keyword_falls_back(s: Seq<char>, k: nat, line: nat)
    requires
        s.len() > 0,
        all_word_chars(s),
        1 <= k <= keyword_of(s[0]).len(),
        k <= s.len(),
        s.take(k as int) == keyword_of(s[0]).take(k as int),
        !(s.len() <= keyword_of(s[0]).len() && s == keyword_of(s[0]).take(s.len() as int)),
    ensures
        keyword_from(s, 0, k, line) == word_from(s, 0, 1, line),
    decreases keyword_of(s[0]).len() - k,
{
    let w = keyword_of(s[0]);
    if k < w.len() {
        if k >= s.len() {
            assert(s =~= s.take(k as int));
        } else if s[k as int] == w[k as int] {
            assert(s.take(k + 1 as int) =~= s.take(k as int).push(s[k as int]));
            assert(w.take(k + 1 as int) =~= w.take(k as int).push(w[k as int]));
            lemma_keyword_falls_back(s, k + 1, line);
        }
    } else if s.len() <= w.len() {
        assert(s =~= s.take(k as int));
        assert(w =~= w.take(k as int));
    }
}

/// A word made only of word characters that starts with `t`, `f` or `n` and
/// is neither `true`, `false`, `null` nor a beginning of one gives a single
/// bare-word token for the whole word.
pub proof fn law_keyword_prefix_word(s: Seq<char>)
    requires
        s.len() > 0,
        s[0] == 't' || s[0] == 'f' || s[0] == 'n',
        all_word_chars(s),
        !(s.len() <= keyword_of(s[0]).len() && s == keyword_of(s[0]).take(s.len() as int)),
    ensures
        scan_text(s) == Ok::<Seq<TokenView>, Failure>(
            seq![word_token(s, 1), plain_token(TokenType::EndOfInput, 1)],
        ),
{
    assert(s.take(1) =~= keyword_of(s[0]).take(1));
    lemma_keyword_falls_back(s, 1, 1);
    lemma_word_run(s, 1, 1);
    assert(step(s, 0, 1) == Ok::<Step, ScannerErrorView>(
        Step { pos: s.len(), line: 1, token: Some(word_token(s, 1)) },
    ));
    assert(scan_from(s, s.len(), 1) == Ok::<Seq<TokenView>, Failure>(
        seq![plain_token(TokenType::EndOfInput, 1)],
    ));
    assert(seq![word_token(s, 1)] + seq![plain_token(TokenType::EndOfInput, 1)] =~= seq![
        word_token(s, 1),
        plain_token(TokenType::EndOfInput, 1),
    ]);
}

/// Every token of a successful scan carries raw text exactly when it is a
/// word, a string or a number.
pub proof fn law_lexeme_fits_kind(s: Seq<char>, toks: Seq<TokenView>)
    requires
        scan_text(s) == Ok::<Seq<TokenView>, Failure>(toks),
    ensures
        forall|i: int| 0 <= i < toks.len() ==> lexeme_fits_kind(#[trigger] toks[i]),
{
    lemma_scan_tokens_ok(s, 0, 1, toks);
}

} // verus!
