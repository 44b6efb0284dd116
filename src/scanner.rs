use vstd::prelude::*;

use crate::grammar::{
    comment_from, is_digit, is_line_break, is_word_char, keyword_from, keyword_of,
    line_break, number_from, plain_token, scan_from, step, string_from, token_seq, word_from, Failure,
    Step, lemma_step,
};
use crate::literals::Literals;
use crate::scanner_error::{ScannerError, ScannerErrorView};
use crate::text::{chars_of, text_of, text_of_char};
use crate::token::{Token, TokenView};
use crate::token_type::TokenType;

verus! {

/// Turns a configuration text into its tokens, one pass from left to right.
pub struct Scanner {
    pointer: usize,
    line: usize,
    data: Vec<char>,
    vec: Vec<Token>,
}

/// `pre` in front of the tokens of `r`, or the failure of `r`.
pub open spec fn prepend(pre: Seq<TokenView>, r: Result<Seq<TokenView>, Failure>) -> Result<
    Seq<TokenView>,
    Failure,
> {
    match r {
        Ok(rest) => Ok(pre + rest),
        Err(f) => Err(f),
    }
}

proof fn lemma_prepend_assoc(a: Seq<TokenView>, b: Seq<TokenView>, r: Result<Seq<TokenView>, Failure>)
    ensures
        prepend(a, prepend(b, r)) == prepend(a + b, r),
{
    if let Ok(rest) = r {
        assert(a + (b + rest) =~= (a + b) + rest);
    }
}

/// The mathematical values of a sequence of tokens.
pub open spec fn token_views(v: Seq<Token>) -> Seq<TokenView> {
    v.map_values(|t: Token| t@)
}

impl Scanner {
    /// The input, as characters.
    pub closed spec fn source(&self) -> Seq<char> {
        self.data@
    }

    /// How many characters of the input are consumed.
    pub closed spec fn cursor(&self) -> nat {
        self.pointer as nat
    }

    /// The line the cursor stands on, counted from 1.
    pub closed spec fn current_line(&self) -> nat {
        self.line as nat
    }

    /// The tokens produced so far.
    pub closed spec fn tokens(&self) -> Seq<TokenView> {
        token_views(self.vec@)
    }

    /// The cursor lies within the input, and the line counter has grown by at
    /// most one for each character consumed.
    pub closed spec fn wf(&self) -> bool {
        &&& self.data@.len() < usize::MAX
        &&& self.pointer <= self.data@.len()
        &&& 1 <= self.line <= self.pointer + 1
    }

    /// What a recognizer that began at the cursor of `before` did, as `o` describes it.
    closed spec fn follows(before: Scanner, after: Scanner, r: Result<(), ScannerError>, o: Result<
        Step,
        ScannerErrorView,
    >) -> bool {
        &&& after.data == before.data
        &&& match o {
            Ok(st) => {
                &&& r is Ok
                &&& after.pointer == st.pos
                &&& after.line == st.line
                &&& after.tokens() == before.tokens() + token_seq(st.token)
            },
            Err(e) => {
                &&& r matches Err(x) && x@ == e
                &&& after.line == before.line
                &&& after.tokens() == before.tokens()
            },
        }
    }

    /// A scanner at the start of `data`, on line 1, with no tokens yet.
    pub fn new(data: String) -> (r: Self)
        requires
            data@.len() < usize::MAX,
        ensures
            r.wf(),
            r.source() == data@,
            r.cursor() == 0,
            r.current_line() == 1,
            r.tokens() == Seq::<TokenView>::empty(),
    {
        let chars = chars_of(data.as_str());
        let r = Scanner { pointer: 0, line: 1, data: chars, vec: Vec::new() };
        assert(r.tokens() =~= Seq::<TokenView>::empty());
        r
    }

    /// The line on which the scanner stands; after a failed scan, the line of the failure.
    pub fn line(&self) -> (r: usize)
        ensures
            r as nat == self.current_line(),
    {
        self.line
    }

    fn is_at_end(&self) -> (r: bool)
        requires
            self.wf(),
        ensures
            r == (self.pointer >= self.data@.len()),
    {
        self.pointer >= self.data.len()
    }

    /// The character at the cursor, which then moves past it; `None` at the end.
    fn advance(&mut self) -> (r: Option<char>)
        requires
            old(self).wf(),
        ensures
            final(self).data == old(self).data,
            final(self).vec == old(self).vec,
            final(self).line == old(self).line,
            old(self).pointer < old(self).data@.len() ==> r == Some(old(self).data@[old(
                self,
            ).pointer as int]) && final(self).pointer == old(self).pointer + 1,
            old(self).pointer >= old(self).data@.len() ==> r is None && final(self).pointer == old(
                self,
            ).pointer,
    {
        if !self.is_at_end() {
            let c = self.data[self.pointer];
            self.pointer = self.pointer + 1;
            Some(c)
        } else {
            None
        }
    }

    /// The character at the cursor, or `'\0'` at the end.
    fn peek(&self) -> (r: char)
        requires
            self.wf(),
        ensures
            self.pointer < self.data@.len() ==> r == self.data@[self.pointer as int],
            self.pointer >= self.data@.len() ==> r == '\0',
    {
        if !self.is_at_end() {
            self.data[self.pointer]
        } else {
            '\0'
        }
    }

    /// The character just consumed.
    fn current(&self) -> (r: char)
        requires
            self.wf(),
            self.pointer >= 1,
        ensures
            r == self.data@[self.pointer - 1],
    {
        self.data[self.pointer - 1]
    }

    fn add_token(&mut self, kind: TokenType, literal: Literals, lexeme: Option<String>, line: usize)
        ensures
            final(self).data == old(self).data,
            final(self).pointer == old(self).pointer,
            final(self).line == old(self).line,
            final(self).tokens() == old(self).tokens() + token_seq(
                Some(
                    TokenView {
                        kind,
                        value: literal@,
                        lexeme: crate::token::option_text_view(lexeme),
                        line: line as nat,
                    },
                ),
            ),
    {
        let t = Token::new(kind, literal, lexeme, line);
        self.vec.push(t);
        assert(self.tokens() =~= old(self).tokens() + token_seq(Some(t@)));
    }

    /// Handles the line break whose first character was just consumed.
    fn process_new_line(&mut self) -> (r: Result<(), ScannerError>)
        requires
            old(self).wf(),
            old(self).pointer >= 1,
            old(self).line <= old(self).pointer,
            is_line_break(old(self).data@[old(self).pointer - 1]),
        ensures
            final(self).wf(),
            final(self).data == old(self).data,
            final(self).vec == old(self).vec,
            match line_break(
                old(self).data@,
                old(self).pointer as nat,
                old(self).data@[old(self).pointer - 1],
                old(self).line as nat,
            ) {
                Ok((p, l)) => r is Ok && final(self).pointer == p && final(self).line == l,
                Err(e) => r matches Err(x) && x@ == e && final(self).line == old(self).line,
            },
    {
        let c = self.current();
        if c == '\n' {
            self.line = self.line + 1;
            Ok(())
        } else {
            match self.advance() {
                Some(following) => {
                    if following == '\n' {
                        self.line = self.line + 1;
                        Ok(())
                    } else {
                        let mut e = String::new();
                        e.push('\\');
                        e.push('r');
                        assert(e@ =~= seq!['\\', 'r']);
                        Err(ScannerError::UnexpectedValue(e))
                    }
                },
                None => Err(ScannerError::UnexpectedTermination),
            }
        }
    }
    /// A number whose first digit was just consumed.
    fn parse_number(&mut self) -> (r: Result<(), ScannerError>)
        requires
            old(self).wf(),
            old(self).pointer >= 1,
            old(self).line <= old(self).pointer,
        ensures
            final(self).wf(),
            Self::follows(
                *old(self),
                *final(self),
                r,
                number_from(
                    old(self).data@,
                    (old(self).pointer - 1) as nat,
                    old(self).pointer as nat,
                    old(self).line as nat,
                    false,
                ),
            ),
    {
        let ghost s = self.data@;
        let start = self.pointer - 1;
        let mut point = false;
        loop
            invariant
                self.wf(),
                self.data == old(self).data,
                self.data@ == s,
                s == old(self).data@,
                self.vec == old(self).vec,
                self.line == old(self).line,
                start < self.pointer,
                start == old(self).pointer - 1,
                self.line <= start + 1,
                number_from(old(self).data@, (old(self).pointer - 1) as nat, old(self).pointer as nat, old(self).line as nat, false) == number_from(s, start as nat, self.pointer as nat, self.line as nat, point),
            decreases s.len() - self.pointer,
        {
            let q = self.pointer;
            match self.advance() {
                None => {
                    let text = text_of(&self.data, start, q);
                    self.add_token(TokenType::NumberLiteral, Literals::Number(text.clone()), Some(text), self.line);
                    return Ok(());
                },
                Some(d) => {
                    if d == '.' {
                        if point {
                            return Err(ScannerError::UnexpectedValue(text_of_char(d)));
                        }
                        if !is_digit_char(self.peek()) {
                            return Err(ScannerError::IncompleteNumber);
                        }
                        self.pointer = self.pointer + 1;
                        point = true;
                    } else if d == ' ' || d == '\t' {
                        let text = text_of(&self.data, start, q);
                        self.add_token(TokenType::NumberLiteral, Literals::Number(text.clone()), Some(text), self.line);
                        return Ok(());
                    } else if d == '\n' || d == '\r' {
                        let line = self.line;
                        match self.process_new_line() {
                            Ok(()) => {},
                            Err(e) => return Err(e),
                        }
                        let text = text_of(&self.data, start, q);
                        self.add_token(TokenType::NumberLiteral, Literals::Number(text.clone()), Some(text), line);
                        return Ok(());
                    } else if !is_digit_char(d) {
                        return Err(ScannerError::UnexpectedValue(text_of_char(d)));
                    }
                },
            }
        }
    }

    /// A quoted string whose opening quote was just consumed.
    fn parse_string(&mut self) -> (r: Result<(), ScannerError>)
        requires
            old(self).wf(),
        ensures
            final(self).wf(),
            Self::follows(
                *old(self),
                *final(self),
                r,
                string_from(old(self).data@, old(self).pointer as nat, old(self).line as nat, seq![]),
            ),
    {
        let ghost s = self.data@;
        let mut cache = String::new();
        loop
            invariant
                self.wf(),
                self.data == old(self).data,
                self.data@ == s,
                s == old(self).data@,
                self.vec == old(self).vec,
                self.line == old(self).line,
                old(self).pointer <= self.pointer,
                string_from(old(self).data@, old(self).pointer as nat, old(self).line as nat, seq![]) == string_from(s, self.pointer as nat, self.line as nat, cache@),
            decreases s.len() - self.pointer,
        {
            match self.advance() {
                None => return Err(ScannerError::UnterminatedString),
                Some(d) => {
                    if d == '"' {
                        self.add_token(TokenType::StringLiteral, Literals::Text(cache.clone()), Some(cache), self.line);
                        return Ok(());
                    } else if d == '\\' {
                        match self.advance() {
                            None => return Err(ScannerError::UnexpectedTermination),
                            Some(following) => {
                                if following == 'n' {
                                    cache.push('\n');
                                } else if following == 'r' {
                                    cache.push('\r');
                                } else if following == 't' {
                                    cache.push('\t');
                                } else if following == '"' {
                                    cache.push('"');
                                } else {
                                    return Err(ScannerError::UnexpectedValue(text_of_char(following)));
                                }
                            },
                        }
                    } else if d == '\n' || d == '\r' {
                        return Err(ScannerError::UnterminatedString);
                    } else {
                        cache.push(d);
                    }
                },
            }
        }
    }

    /// A line comment, whose `//` opener was seen at the cursor.
    fn parse_comment(&mut self) -> (r: Result<(), ScannerError>)
        requires
            old(self).wf(),
            old(self).line <= old(self).pointer,
        ensures
            final(self).wf(),
            Self::follows(
                *old(self),
                *final(self),
                r,
                match comment_from(old(self).data@, old(self).pointer as nat, old(self).line as nat) {
                    Ok((q, l)) => Ok(Step { pos: q, line: l, token: None }),
                    Err(e) => Err(e),
                },
            ),
    {
        let ghost s = self.data@;
        loop
            invariant
                self.wf(),
                self.data == old(self).data,
                self.data@ == s,
                s == old(self).data@,
                self.vec == old(self).vec,
                self.line == old(self).line,
                old(self).pointer <= self.pointer,
                self.line <= self.pointer,
                comment_from(old(self).data@, old(self).pointer as nat, old(self).line as nat) == comment_from(s, self.pointer as nat, self.line as nat),
            decreases s.len() - self.pointer,
        {
            match self.advance() {
                None => {
                    assert(token_seq(None) =~= Seq::<TokenView>::empty());
                    assert(self.tokens() =~= old(self).tokens() + token_seq(None));
                    return Ok(());
                },
                Some(d) => {
                    if d == '\n' || d == '\r' {
                        let r = self.process_new_line();
                        assert(self.tokens() =~= old(self).tokens() + token_seq(None));
                        return r;
                    }
                },
            }
        }
    }

    /// A bare word whose first character was just consumed. A line break that
    /// ends the word is consumed and counted; any other character that ends it
    /// stays at the cursor, so in `abc)` the `)` gives its own token.
    fn parse_ascii_string(&mut self) -> (r: Result<(), ScannerError>)
        requires
            old(self).wf(),
            old(self).pointer >= 1,
            old(self).line <= old(self).pointer,
        ensures
            final(self).wf(),
            Self::follows(
                *old(self),
                *final(self),
                r,
                word_from(
                    old(self).data@,
                    (old(self).pointer - 1) as nat,
                    old(self).pointer as nat,
                    old(self).line as nat,
                ),
            ),
    {
        let ghost s = self.data@;
        let start = self.pointer - 1;
        loop
            invariant
                self.wf(),
                self.data == old(self).data,
                self.data@ == s,
                s == old(self).data@,
                self.vec == old(self).vec,
                self.line == old(self).line,
                start < self.pointer,
                start == old(self).pointer - 1,
                self.line <= start + 1,
                word_from(old(self).data@, (old(self).pointer - 1) as nat, old(self).pointer as nat, old(self).line as nat) == word_from(s, start as nat, self.pointer as nat, self.line as nat),
            decreases s.len() - self.pointer,
        {
            let q = self.pointer;
            match self.advance() {
                None => {
                    let text = text_of(&self.data, start, q);
                    self.add_token(TokenType::Identifier, Literals::Identifier(text.clone()), Some(text), self.line);
                    return Ok(());
                },
                Some(d) => {
                    if !is_word_character(d) {
                        if d == '\n' || d == '\r' {
                            match self.process_new_line() {
                                Ok(()) => {},
                                Err(e) => return Err(e),
                            }
                        } else {
                            self.pointer = q;
                        }
                        let text = text_of(&self.data, start, q);
                        self.add_token(TokenType::Identifier, Literals::Identifier(text.clone()), Some(text), self.line);
                        return Ok(());
                    }
                },
            }
        }
    }
    /// A keyword attempt whose first letter `first` was just consumed. Where the
    /// input turns out to be a bare word, the cursor goes back and the word is read whole.
    /// A letter that starts no keyword is an unexpected value.
    fn check_by_characters(&mut self, first: char) -> (r: Result<(), ScannerError>)
        requires
            old(self).wf(),
            old(self).pointer >= 1,
            old(self).line <= old(self).pointer,
            old(self).data@[old(self).pointer - 1] == first,
        ensures
            final(self).wf(),
            Self::follows(
                *old(self),
                *final(self),
                r,
                if first == 't' || first == 'f' || first == 'n' {
                    keyword_from(
                        old(self).data@,
                        (old(self).pointer - 1) as nat,
                        1,
                        old(self).line as nat,
                    )
                } else {
                    Err(ScannerErrorView::UnexpectedValue(seq![first]))
                },
            ),
            !(first == 't' || first == 'f' || first == 'n') ==> final(self).pointer == old(
                self,
            ).pointer,
    {
        if !(first == 't' || first == 'f' || first == 'n') {
            return Err(ScannerError::UnexpectedValue(text_of_char(first)));
        }
        let start = self.pointer;
        let word = keyword_letters(first);
        let mut k: usize = 1;
        while k < word.len()
            invariant
                self.wf(),
                self.data == old(self).data,
                self.vec == old(self).vec,
                self.line == old(self).line,
                start == old(self).pointer,
                start >= 1,
                self.line <= start,
                old(self).data@[start - 1] == first,
                first == 't' || first == 'f' || first == 'n',
                word@ == keyword_of(first),
                1 <= k <= word@.len(),
                self.pointer == start - 1 + k,
                keyword_from(old(self).data@, (start - 1) as nat, 1, self.line as nat)
                    == keyword_from(old(self).data@, (start - 1) as nat, k as nat, self.line as nat),
            decreases word@.len() - k,
        {
            match self.advance() {
                None => return Err(ScannerError::UnexpectedTermination),
                Some(c) => {
                    if c != word[k] {
                        if is_word_character(c) {
                            self.pointer = start;
                            return self.parse_ascii_string();
                        } else if first == 't' {
                            return Err(ScannerError::InvalidTrueLiteral);
                        } else if first == 'f' {
                            return Err(ScannerError::InvalidFalseLiteral);
                        } else {
                            return Err(ScannerError::InvalidNullLiteral);
                        }
                    }
                },
            }
            k = k + 1;
        }
        if is_word_character(self.peek()) {
            self.pointer = start;
            return self.parse_ascii_string();
        }
        if first == 't' {
            self.add_token(TokenType::BooleanLiteral, Literals::Boolean(true), None, self.line);
        } else if first == 'f' {
            self.add_token(TokenType::BooleanLiteral, Literals::Boolean(false), None, self.line);
        } else {
            self.add_token(TokenType::NullLiteral, Literals::Null, None, self.line);
        }
        Ok(())
    }

    /// One round of the main loop: consumes the character at the cursor and
    /// whatever it starts.
    fn scan_one(&mut self) -> (r: Result<(), ScannerError>)
        requires
            old(self).wf(),
            old(self).pointer < old(self).data@.len(),
        ensures
            final(self).wf(),
            Self::follows(
                *old(self),
                *final(self),
                r,
                step(old(self).data@, old(self).pointer as nat, old(self).line as nat),
            ),
    {
        let c = self.data[self.pointer];
        self.pointer = self.pointer + 1;
        let line = self.line;
        if c == '#' {
            self.add_token(TokenType::Pound, Literals::Empty, None, line);
        } else if c == '(' {
            self.add_token(TokenType::RoundOpen, Literals::Empty, None, line);
        } else if c == ')' {
            self.add_token(TokenType::RoundClose, Literals::Empty, None, line);
        } else if c == '{' {
            self.add_token(TokenType::CurlyOpen, Literals::Empty, None, line);
        } else if c == '}' {
            self.add_token(TokenType::CurlyClose, Literals::Empty, None, line);
        } else if c == '$' {
            self.add_token(TokenType::VariableMarker, Literals::Empty, None, line);
        } else if c == 't' || c == 'f' || c == 'n' {
            return self.check_by_characters(c);
        } else if c == ' ' || c == '\t' {
            assert(self.tokens() =~= old(self).tokens() + token_seq(None));
        } else if c == '\n' || c == '\r' {
            let r = self.process_new_line();
            assert(self.tokens() =~= old(self).tokens() + token_seq(None));
            return r;
        } else if c == '/' {
            if self.peek() == '/' {
                return self.parse_comment();
            } else {
                return Err(ScannerError::UnexpectedValue(text_of_char('/')));
            }
        } else if is_digit_char(c) {
            return self.parse_number();
        } else if c == '"' {
            return self.parse_string();
        } else if is_word_character(c) {
            return self.parse_ascii_string();
        } else {
            return Err(ScannerError::UnexpectedValue(text_of_char(c)));
        }
        Ok(())
    }

    /// Scans from the cursor to the end of the input, and appends the end-of-input token.
    fn scan_token(&mut self) -> (r: Result<&Vec<Token>, ScannerError>)
        requires
            old(self).wf(),
        ensures
            match scan_from(old(self).data@, old(self).pointer as nat, old(self).line as nat) {
                Ok(toks) => r matches Ok(v) && token_views(v@) == old(self).tokens() + toks,
                Err(f) => r matches Err(e) && e@ == f.error && final(self).current_line() == f.line,
            },
    {
        let ghost s = self.data@;
        let ghost n0 = self.tokens().len();
        loop
            invariant
                self.wf(),
                self.data@ == s,
                s == old(self).data@,
                n0 == old(self).tokens().len(),
                n0 <= self.tokens().len(),
                self.tokens().subrange(0, n0 as int) == old(self).tokens(),
                scan_from(s, old(self).pointer as nat, old(self).line as nat) == prepend(
                    self.tokens().subrange(n0 as int, self.tokens().len() as int),
                    scan_from(s, self.pointer as nat, self.line as nat),
                ),
            ensures
                self.pointer >= s.len(),
            decreases s.len() - self.pointer,
        {
            if self.is_at_end() {
                break;
            }
            let ghost p = self.pointer as nat;
            let ghost l = self.line as nat;
            let ghost before = self.tokens();
            proof {
                lemma_step(s, p, l);
            }
            match self.scan_one() {
                Ok(()) => {},
                Err(e) => {
                    assert(scan_from(s, p, l) == Err::<Seq<TokenView>, Failure>(
                        Failure { error: e@, line: l },
                    ));
                    return Err(e);
                },
            }
            proof {
                let st = step(s, p, l)->Ok_0;
                assert(scan_from(s, p, l) == prepend(
                    token_seq(st.token),
                    scan_from(s, self.pointer as nat, self.line as nat),
                ));
                lemma_prepend_assoc(
                    before.subrange(n0 as int, before.len() as int),
                    token_seq(st.token),
                    scan_from(s, self.pointer as nat, self.line as nat),
                );
            }
            assert(self.tokens().subrange(n0 as int, self.tokens().len() as int) =~= before.subrange(
                n0 as int,
                before.len() as int,
            ) + token_seq(step(s, p, l)->Ok_0.token));
            assert(self.tokens().subrange(0, n0 as int) =~= before.subrange(0, n0 as int));
        }
        let line = self.line;
        let ghost before = self.tokens();
        self.add_token(TokenType::EndOfInput, Literals::Empty, None, line);
        assert(self.tokens().subrange(n0 as int, self.tokens().len() as int) =~= before.subrange(
            n0 as int,
            before.len() as int,
        ) + seq![plain_token(TokenType::EndOfInput, line as nat)]);
        assert(self.tokens() =~= old(self).tokens() + self.tokens().subrange(n0 as int, self.tokens().len() as int));
        assert(scan_from(s, self.pointer as nat, line as nat) == Ok::<Seq<TokenView>, Failure>(
            seq![plain_token(TokenType::EndOfInput, line as nat)],
        ));
        Ok(&self.vec)
    }

    /// Scans the rest of the input: on success, every token from the first one on;
    /// on failure, the first error, with [`Scanner::line`] telling where it stands.
    pub fn scan(&mut self) -> (r: Result<&Vec<Token>, ScannerError>)
        requires
            old(self).wf(),
        ensures
            match scan_from(old(self).source(), old(self).cursor(), old(self).current_line()) {
                Ok(toks) => r matches Ok(v) && token_views(v@) == old(self).tokens() + toks,
                Err(f) => r matches Err(e) && e@ == f.error && final(self).current_line() == f.line,
            },
    {
        self.scan_token()
    }
}

/// The letters of the keyword that starts with `first`.
fn keyword_letters(first: char) -> (r: Vec<char>)
    requires
        first == 't' || first == 'f' || first == 'n',
    ensures
        r@ == keyword_of(first),
{
    let r = if first == 't' {
        vec!['t', 'r', 'u', 'e']
    } else if first == 'f' {
        vec!['f', 'a', 'l', 's', 'e']
    } else {
        vec!['n', 'u', 'l', 'l']
    };
    assert(r@ =~= keyword_of(first));
    r
}

/// Whether `c` is an ascii digit.
pub fn is_digit_char(c: char) -> (r: bool)
    ensures
        r == is_digit(c),
{
    '0' <= c && c <= '9'
}

/// Whether `c` may start or continue a bare word.
pub fn is_word_character(c: char) -> (r: bool)
    ensures
        r == is_word_char(c),
{
    ('a' <= c && c <= 'z') || ('A' <= c && c <= 'Z') || c == '_'
}

} // verus!
