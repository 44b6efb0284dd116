use config_scanner::{Literals, Scanner, ScannerError, Token, TokenType};

fn scan(text: &str) -> Result<Vec<(TokenType, String, Option<String>, usize)>, (String, usize)> {
    let mut scanner = Scanner::new(text.to_string());
    match scanner.scan() {
        Ok(tokens) => Ok(tokens.iter().map(describe).collect()),
        Err(e) => {
            let message = e.message();
            Err((message, scanner.line()))
        }
    }
}

fn describe(t: &Token) -> (TokenType, String, Option<String>, usize) {
    let value = match t.literal() {
        Literals::Empty => "empty".to_string(),
        Literals::Number(n) => format!("number {}", n),
        Literals::Text(s) => format!("text {}", s),
        Literals::Identifier(s) => format!("word {}", s),
        Literals::Boolean(b) => format!("bool {}", b),
        Literals::Null => "null".to_string(),
    };
    (t.token_type(), value, t.lexeme().clone(), t.line())
}

fn error_of(text: &str) -> ScannerError {
    let mut scanner = Scanner::new(text.to_string());
    match scanner.scan() {
        Ok(_) => panic!("expected a failure"),
        Err(e) => e,
    }
}

#[test]
fn empty_input_gives_only_end_of_input() {
    let tokens = scan("").unwrap();
    assert_eq!(tokens, vec![(TokenType::EndOfInput, "empty".to_string(), None, 1)]);
}

#[test]
fn marks_give_one_token_each() {
    let tokens = scan("#(){}$").unwrap();
    let kinds: Vec<TokenType> = tokens.iter().map(|t| t.0).collect();
    assert_eq!(
        kinds,
        vec![
            TokenType::Pound,
            TokenType::RoundOpen,
            TokenType::RoundClose,
            TokenType::CurlyOpen,
            TokenType::CurlyClose,
            TokenType::VariableMarker,
            TokenType::EndOfInput,
        ]
    );
    assert!(tokens.iter().all(|t| t.2.is_none() && t.3 == 1));
}

fn kinds(text: &str) -> Vec<TokenType> {
    scan(text).unwrap().iter().map(|t| t.0).collect()
}

fn word(text: &str, line: usize) -> (TokenType, String, Option<String>, usize) {
    (TokenType::Identifier, format!("word {}", text), Some(text.to_string()), line)
}

fn number(text: &str, line: usize) -> (TokenType, String, Option<String>, usize) {
    (TokenType::NumberLiteral, format!("number {}", text), Some(text.to_string()), line)
}

fn string(text: &str, line: usize) -> (TokenType, String, Option<String>, usize) {
    (TokenType::StringLiteral, format!("text {}", text), Some(text.to_string()), line)
}

fn plain(kind: TokenType, line: usize) -> (TokenType, String, Option<String>, usize) {
    (kind, "empty".to_string(), None, line)
}

#[test]
fn marks_keep_their_order() {
    assert_eq!(
        kinds("$}{)(#"),
        vec![
            TokenType::VariableMarker,
            TokenType::CurlyClose,
            TokenType::CurlyOpen,
            TokenType::RoundClose,
            TokenType::RoundOpen,
            TokenType::Pound,
            TokenType::EndOfInput,
        ]
    );
}

#[test]
fn integer_numeral_at_end() {
    assert_eq!(scan("42").unwrap(), vec![number("42", 1), plain(TokenType::EndOfInput, 1)]);
}

#[test]
fn decimal_numeral_followed_by_space() {
    assert_eq!(scan("3.25 ").unwrap(), vec![number("3.25", 1), plain(TokenType::EndOfInput, 1)]);
}

#[test]
fn numeral_followed_by_tab_and_mark() {
    assert_eq!(
        scan("7\t#").unwrap(),
        vec![number("7", 1), plain(TokenType::Pound, 1), plain(TokenType::EndOfInput, 1)]
    );
}

#[test]
fn numeral_value_parses_as_the_same_double() {
    for (text, expected) in [("0", 0.0f64), ("12", 12.0), ("3.25", 3.25), ("10.5", 10.5)] {
        let tokens = scan(text).unwrap();
        let raw = tokens[0].2.clone().unwrap();
        assert_eq!(raw, text);
        assert_eq!(raw.parse::<f64>().unwrap(), expected);
    }
}

#[test]
fn numeral_before_line_break_keeps_its_line() {
    assert_eq!(
        scan("5\n#").unwrap(),
        vec![number("5", 1), plain(TokenType::Pound, 2), plain(TokenType::EndOfInput, 2)]
    );
    assert_eq!(
        scan("5\r\n#").unwrap(),
        vec![number("5", 1), plain(TokenType::Pound, 2), plain(TokenType::EndOfInput, 2)]
    );
}

#[test]
fn second_decimal_point_is_rejected() {
    assert_eq!(scan("1.2.3"), Err(("Unexpected value: .".to_string(), 1)));
}

#[test]
fn letter_inside_number_is_rejected() {
    assert_eq!(scan("12a"), Err(("Unexpected value: a".to_string(), 1)));
}

#[test]
fn point_then_end_is_incomplete_number() {
    assert!(matches!(error_of("1."), ScannerError::IncompleteNumber));
    assert!(matches!(error_of("1.x"), ScannerError::IncompleteNumber));
}

#[test]
fn quoted_string_with_escapes() {
    assert_eq!(
        scan("\"a\\nb\\tc\\\"d\\re\"").unwrap(),
        vec![string("a\nb\tc\"d\re", 1), plain(TokenType::EndOfInput, 1)]
    );
}

#[test]
fn empty_quoted_string() {
    assert_eq!(scan("\"\"").unwrap(), vec![string("", 1), plain(TokenType::EndOfInput, 1)]);
}

#[test]
fn string_value_round_trips_through_escaping() {
    let tokens = scan("\"x\\\"y\\n\tz\"").unwrap();
    let value = tokens[0].2.clone().unwrap();
    let mut written = String::from("\"");
    for c in value.chars() {
        match c {
            '\n' => written.push_str("\\n"),
            '\r' => written.push_str("\\r"),
            '\t' => written.push_str("\\t"),
            '"' => written.push_str("\\\""),
            other => written.push(other),
        }
    }
    written.push('"');
    let again = scan(&written).unwrap();
    assert_eq!(again, vec![string(&value, 1), plain(TokenType::EndOfInput, 1)]);
}

#[test]
fn unknown_escape_is_rejected() {
    assert_eq!(scan("\"a\\q\""), Err(("Unexpected value: q".to_string(), 1)));
}

#[test]
fn escape_at_end_is_unexpected_termination() {
    assert!(matches!(error_of("\"a\\"), ScannerError::UnexpectedTermination));
}

#[test]
fn unclosed_string_is_unterminated() {
    assert!(matches!(error_of("\"abc"), ScannerError::UnterminatedString));
}

#[test]
fn raw_line_break_in_string_is_unterminated() {
    assert!(matches!(error_of("\"a\nb\""), ScannerError::UnterminatedString));
}

#[test]
fn keywords_stand_alone() {
    assert_eq!(
        scan("true").unwrap(),
        vec![(TokenType::BooleanLiteral, "bool true".to_string(), None, 1), plain(TokenType::EndOfInput, 1)]
    );
    assert_eq!(
        scan("false ").unwrap(),
        vec![(TokenType::BooleanLiteral, "bool false".to_string(), None, 1), plain(TokenType::EndOfInput, 1)]
    );
    assert_eq!(
        scan("null)").unwrap(),
        vec![
            (TokenType::NullLiteral, "null".to_string(), None, 1),
            plain(TokenType::RoundClose, 1),
            plain(TokenType::EndOfInput, 1)
        ]
    );
}

#[test]
fn keyword_prefix_falls_back_to_word() {
    assert_eq!(scan("truex").unwrap(), vec![word("truex", 1), plain(TokenType::EndOfInput, 1)]);
    assert_eq!(scan("fax").unwrap(), vec![word("fax", 1), plain(TokenType::EndOfInput, 1)]);
    assert_eq!(scan("nothing").unwrap(), vec![word("nothing", 1), plain(TokenType::EndOfInput, 1)]);
}

#[test]
fn keyword_broken_by_other_character() {
    assert!(matches!(error_of("t1"), ScannerError::InvalidTrueLiteral));
    assert!(matches!(error_of("fa#"), ScannerError::InvalidFalseLiteral));
    assert!(matches!(error_of("nu "), ScannerError::InvalidNullLiteral));
}

#[test]
fn keyword_cut_by_end_of_input() {
    assert!(matches!(error_of("tru"), ScannerError::UnexpectedTermination));
    assert!(matches!(error_of("n"), ScannerError::UnexpectedTermination));
}

#[test]
fn bare_words() {
    assert_eq!(
        scan("alpha beta_2").unwrap(),
        vec![word("alpha", 1), word("beta_", 1), number("2", 1), plain(TokenType::EndOfInput, 1)]
    );
    assert_eq!(
        scan("alpha Beta_x").unwrap(),
        vec![word("alpha", 1), word("Beta_x", 1), plain(TokenType::EndOfInput, 1)]
    );
}

#[test]
fn word_before_line_break_takes_the_next_line() {
    assert_eq!(
        scan("abc\n#").unwrap(),
        vec![word("abc", 2), plain(TokenType::Pound, 2), plain(TokenType::EndOfInput, 2)]
    );
}

#[test]
fn word_keeps_the_character_that_ends_it() {
    assert_eq!(
        scan("abc)").unwrap(),
        vec![word("abc", 1), plain(TokenType::RoundClose, 1), plain(TokenType::EndOfInput, 1)]
    );
    assert_eq!(
        scan("(trux)").unwrap(),
        vec![
            plain(TokenType::RoundOpen, 1),
            word("trux", 1),
            plain(TokenType::RoundClose, 1),
            plain(TokenType::EndOfInput, 1)
        ]
    );
}

#[test]
fn comment_then_mark_on_next_line() {
    assert_eq!(
        scan("// anything here\n#").unwrap(),
        vec![plain(TokenType::Pound, 2), plain(TokenType::EndOfInput, 2)]
    );
}

#[test]
fn comment_at_end_of_input() {
    assert_eq!(scan("# // note").unwrap(), vec![plain(TokenType::Pound, 1), plain(TokenType::EndOfInput, 1)]);
}

#[test]
fn single_slash_is_rejected() {
    assert_eq!(scan("/x"), Err(("Unexpected value: /".to_string(), 1)));
}

#[test]
fn unknown_character_is_rejected_with_its_line() {
    assert_eq!(scan("#\n#\r\n@"), Err(("Unexpected value: @".to_string(), 3)));
}

#[test]
fn lone_carriage_return_is_rejected() {
    assert_eq!(scan("#\rx"), Err(("Unexpected value: \\r".to_string(), 1)));
    assert!(matches!(error_of("#\r"), ScannerError::UnexpectedTermination));
}

#[test]
fn line_breaks_count_lines() {
    let tokens = scan("#\n\n$\r\n(").unwrap();
    let lines: Vec<usize> = tokens.iter().map(|t| t.3).collect();
    assert_eq!(lines, vec![1, 3, 4, 4]);
}

#[test]
fn error_messages() {
    assert_eq!(ScannerError::IncompleteNumber.message(), "Incomplete number");
    assert_eq!(ScannerError::UnexpectedTermination.message(), "Unexpected Termination");
    assert_eq!(ScannerError::UnterminatedString.message(), "Unexpected string termination");
    assert_eq!(ScannerError::InvalidTrueLiteral.message(), "Invalid true literal");
    assert_eq!(ScannerError::InvalidFalseLiteral.message(), "Invalid false literal");
    assert_eq!(ScannerError::InvalidNullLiteral.message(), "Invalid null literal");
    assert_eq!(ScannerError::UnexpectedValue("%".to_string()).message(), "Unexpected value: %");
}

#[test]
fn mixed_document() {
    let text = "#section {\n  $name \"x y\" 12.5 true\n}\n";
    assert_eq!(
        scan(text).unwrap(),
        vec![
            plain(TokenType::Pound, 1),
            word("section", 1),
            plain(TokenType::CurlyOpen, 1),
            plain(TokenType::VariableMarker, 2),
            word("name", 2),
            string("x y", 2),
            number("12.5", 2),
            (TokenType::BooleanLiteral, "bool true".to_string(), None, 2),
            plain(TokenType::CurlyClose, 3),
            plain(TokenType::EndOfInput, 4),
        ]
    );
}

#[test]
fn token_new_keeps_its_fields() {
    let t = Token::new(TokenType::NumberLiteral, Literals::Number("8".to_string()), Some("8".to_string()), 9);
    assert_eq!(describe(&t), number("8", 9));
}
