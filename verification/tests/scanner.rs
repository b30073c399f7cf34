use sam_lexer::compiler::lexer::Lexer;
use sam_lexer::compiler::token::{ConfigError, LexicalError, LexicalErrorKind, Token, TokenType};

fn lexer(lines: &[&str]) -> Lexer {
    Lexer::new(lines.iter().map(|line| line.to_string()).collect()).unwrap()
}

/// The kinds and lines of the tokens of a source, through the end-of-file token.
fn scan(lines: &[&str]) -> Vec<(TokenType, i32)> {
    let mut lexer = lexer(lines);
    let mut tokens = Vec::new();
    loop {
        let token: Token = lexer.get_token().unwrap();
        let done = token.token_type == TokenType::EndOfFile;
        tokens.push((token.token_type, token.line_number));
        if done {
            return tokens;
        }
    }
}

/// The first error of a source.
fn first_error(lines: &[&str]) -> LexicalError {
    let mut lexer = lexer(lines);
    loop {
        match lexer.get_token() {
            Ok(token) => assert!(token.token_type != TokenType::EndOfFile, "no error in the source"),
            Err(error) => return error,
        }
    }
}

fn identifier(name: &str) -> TokenType {
    TokenType::Identifier(name.to_string())
}

fn real_literal(text: &str) -> TokenType {
    TokenType::RealValue(text.to_string())
}

fn string_literal(text: &str) -> TokenType {
    TokenType::StringValue(text.to_string())
}

#[test]
fn a_source_without_lines_is_refused() {
    assert_eq!(Lexer::new(Vec::new()).err(), Some(ConfigError::EmptySource));
}

#[test]
fn a_source_of_one_empty_line_holds_only_the_end_of_file() {
    assert_eq!(scan(&[""]), vec![(TokenType::EndOfFile, 2)]);
}

#[test]
fn the_end_of_file_is_yielded_again_and_again() {
    let mut lexer = lexer(&["x"]);
    assert_eq!(lexer.get_token().unwrap().token_type, identifier("x"));
    for _ in 0..5 {
        let token = lexer.get_token().unwrap();
        assert_eq!(token.token_type, TokenType::EndOfFile);
        assert_eq!(token.line_number, 2);
    }
}

#[test]
fn separators_and_comments_alone_yield_only_the_end_of_file() {
    assert_eq!(scan(&["   ", "\t\t", "# a comment", "  # another one  ", "\r"]), vec![(
        TokenType::EndOfFile,
        6
    )]);
    assert_eq!(scan(&["# var x := 1; \"text"]), vec![(TokenType::EndOfFile, 2)]);
    assert_eq!(scan(&["#"]), vec![(TokenType::EndOfFile, 2)]);
    assert_eq!(scan(&["", "", ""]), vec![(TokenType::EndOfFile, 4)]);
}

#[test]
fn digits_alone_are_an_integer() {
    assert_eq!(scan(&["0"]), vec![(TokenType::IntValue(0), 1), (TokenType::EndOfFile, 2)]);
    assert_eq!(scan(&["42"]), vec![(TokenType::IntValue(42), 1), (TokenType::EndOfFile, 2)]);
    assert_eq!(scan(&["007 "]), vec![(TokenType::IntValue(7), 1), (TokenType::EndOfFile, 2)]);
    assert_eq!(scan(&["2147483647;"]), vec![
        (TokenType::IntValue(2147483647), 1),
        (TokenType::Semicolon, 1),
        (TokenType::EndOfFile, 2)
    ]);
}

#[test]
fn an_integer_above_32_bits_is_an_error() {
    assert_eq!(first_error(&["2147483648"]), LexicalError {
        kind: LexicalErrorKind::IntegerOutOfRange,
        line: 1
    });
    let mut lexer = lexer(&["", "99999999999 x"]);
    assert_eq!(lexer.get_token(), Err(LexicalError {
        kind: LexicalErrorKind::IntegerOutOfRange,
        line: 2
    }));
    let next = lexer.get_token().unwrap();
    assert_eq!(next.token_type, identifier("x"));
    assert_eq!(next.line_number, 2);
}

#[test]
fn digits_a_point_and_digits_are_a_real() {
    assert_eq!(scan(&["4.5"]), vec![(real_literal("4.5"), 1), (TokenType::EndOfFile, 2)]);
    assert_eq!(scan(&["0.0 10.25"]), vec![
        (real_literal("0.0"), 1),
        (real_literal("10.25"), 1),
        (TokenType::EndOfFile, 2)
    ]);
    assert_eq!(scan(&["1.50+"]), vec![
        (real_literal("1.50"), 1),
        (TokenType::Plus, 1),
        (TokenType::EndOfFile, 2)
    ]);
}

#[test]
fn the_text_of_a_real_reads_as_the_number_it_denotes() {
    let expected = [("4.5", 4.5), ("0.0", 0.0), ("10.25", 10.25), ("3.14159", 3.14159), ("001.500", 1.5)];
    for (source, value) in expected {
        let tokens = scan(&[source]);
        match &tokens[0].0 {
            TokenType::RealValue(text) => {
                assert_eq!(text, source);
                assert_eq!(text.parse::<f64>().unwrap(), value);
            },
            other => panic!("{:?}", other),
        }
    }
}

#[test]
fn a_second_point_ends_a_real_and_is_itself_illegal() {
    let mut lexer = lexer(&["1.2.3"]);
    assert_eq!(lexer.get_token().unwrap().token_type, real_literal("1.2"));
    assert_eq!(lexer.get_token(), Err(LexicalError {
        kind: LexicalErrorKind::IllegalCharacter('.'),
        line: 1
    }));
    assert_eq!(lexer.get_token().unwrap().token_type, TokenType::IntValue(3));
}

#[test]
fn a_point_without_a_digit_after_it_is_an_error() {
    assert_eq!(first_error(&["12."]), LexicalError {
        kind: LexicalErrorKind::MalformedNumber('\n'),
        line: 1
    });
    assert_eq!(first_error(&["12.x"]), LexicalError {
        kind: LexicalErrorKind::MalformedNumber('x'),
        line: 1
    });
    assert_eq!(first_error(&["x := 3. ;"]), LexicalError {
        kind: LexicalErrorKind::MalformedNumber(' '),
        line: 1
    });
}

#[test]
fn the_character_after_a_malformed_number_is_scanned_next() {
    let mut lexer = lexer(&["12.x", "7.", "y"]);
    assert!(lexer.get_token().is_err());
    let x = lexer.get_token().unwrap();
    assert_eq!((x.token_type, x.line_number), (identifier("x"), 1));
    assert_eq!(lexer.get_token(), Err(LexicalError {
        kind: LexicalErrorKind::MalformedNumber('\n'),
        line: 2
    }));
    let y = lexer.get_token().unwrap();
    assert_eq!((y.token_type, y.line_number), (identifier("y"), 3));
}

#[test]
fn a_word_that_spells_a_keyword_is_that_keyword() {
    assert_eq!(scan(&["var boolean int real string function true false if elsif else while return"]), vec![
        (TokenType::Var, 1),
        (TokenType::Boolean, 1),
        (TokenType::Int, 1),
        (TokenType::Real, 1),
        (TokenType::String, 1),
        (TokenType::Function, 1),
        (TokenType::True, 1),
        (TokenType::False, 1),
        (TokenType::If, 1),
        (TokenType::Elsif, 1),
        (TokenType::Else, 1),
        (TokenType::While, 1),
        (TokenType::Return, 1),
        (TokenType::EndOfFile, 2),
    ]);
}

#[test]
fn any_other_word_is_an_identifier_with_the_word_as_its_name() {
    assert_eq!(scan(&["x _ _x x_1 Var variable iff whileTrue a1b2 If"]), vec![
        (identifier("x"), 1),
        (identifier("_"), 1),
        (identifier("_x"), 1),
        (identifier("x_1"), 1),
        (identifier("Var"), 1),
        (identifier("variable"), 1),
        (identifier("iff"), 1),
        (identifier("whileTrue"), 1),
        (identifier("a1b2"), 1),
        (identifier("If"), 1),
        (TokenType::EndOfFile, 2),
    ]);
}

#[test]
fn a_numeral_ends_where_a_word_begins() {
    assert_eq!(scan(&["12ab"]), vec![
        (TokenType::IntValue(12), 1),
        (identifier("ab"), 1),
        (TokenType::EndOfFile, 2)
    ]);
}

#[test]
fn greater_equal_is_one_token() {
    assert_eq!(scan(&[">="]), vec![(TokenType::GreaterEqual, 1), (TokenType::EndOfFile, 2)]);
}

#[test]
fn greater_and_equal_apart_are_two_tokens() {
    assert_eq!(scan(&["> ="]), vec![
        (TokenType::GreaterThan, 1),
        (TokenType::Equal, 1),
        (TokenType::EndOfFile, 2)
    ]);
}

#[test]
fn the_longest_operator_is_taken() {
    assert_eq!(scan(&["a<=b"]), vec![
        (identifier("a"), 1),
        (TokenType::LessEqual, 1),
        (identifier("b"), 1),
        (TokenType::EndOfFile, 2)
    ]);
    assert_eq!(scan(&[">=="]), vec![
        (TokenType::GreaterEqual, 1),
        (TokenType::Equal, 1),
        (TokenType::EndOfFile, 2)
    ]);
    assert_eq!(scan(&["+++"]), vec![
        (TokenType::Increment, 1),
        (TokenType::Plus, 1),
        (TokenType::EndOfFile, 2)
    ]);
    assert_eq!(scan(&["---"]), vec![
        (TokenType::Decrement, 1),
        (TokenType::Minus, 1),
        (TokenType::EndOfFile, 2)
    ]);
    assert_eq!(scan(&["=>"]), vec![
        (TokenType::Equal, 1),
        (TokenType::GreaterThan, 1),
        (TokenType::EndOfFile, 2)
    ]);
    assert_eq!(scan(&["+-"]), vec![
        (TokenType::Plus, 1),
        (TokenType::Minus, 1),
        (TokenType::EndOfFile, 2)
    ]);
}

#[test]
fn every_operator_is_scanned() {
    assert_eq!(
        scan(&["+ - * / { } ( ) = != := > >= < <= && || ++ -- , ;"]).into_iter().map(|t| t.0).collect::<Vec<_>>(),
        vec![
            TokenType::Plus,
            TokenType::Minus,
            TokenType::Asterisk,
            TokenType::Slash,
            TokenType::LeftBrace,
            TokenType::RightBrace,
            TokenType::LeftParen,
            TokenType::RightParen,
            TokenType::Equal,
            TokenType::NotEqual,
            TokenType::Assignment,
            TokenType::GreaterThan,
            TokenType::GreaterEqual,
            TokenType::LessThan,
            TokenType::LessEqual,
            TokenType::LogicalAnd,
            TokenType::LogicalOr,
            TokenType::Increment,
            TokenType::Decrement,
            TokenType::Comma,
            TokenType::Semicolon,
            TokenType::EndOfFile,
        ]
    );
}

#[test]
fn punctuation_needs_no_separator() {
    assert_eq!(scan(&["f(a,b){}"]).into_iter().map(|t| t.0).collect::<Vec<_>>(), vec![
        identifier("f"),
        TokenType::LeftParen,
        identifier("a"),
        TokenType::Comma,
        identifier("b"),
        TokenType::RightParen,
        TokenType::LeftBrace,
        TokenType::RightBrace,
        TokenType::EndOfFile,
    ]);
}

#[test]
fn an_operator_does_not_go_on_in_the_next_line() {
    assert_eq!(scan(&[">", "="]), vec![
        (TokenType::GreaterThan, 1),
        (TokenType::Equal, 2),
        (TokenType::EndOfFile, 3)
    ]);
    assert_eq!(scan(&["+", "+"]), vec![
        (TokenType::Plus, 1),
        (TokenType::Plus, 2),
        (TokenType::EndOfFile, 3)
    ]);
}

#[test]
fn the_start_of_an_operator_alone_is_an_error() {
    for (source, line) in [("!", 1), (":", 1), ("&", 1), ("|", 1), ("a ! b", 1), ("x : y", 1), ("&|", 1)] {
        assert_eq!(first_error(&[source]), LexicalError {
            kind: LexicalErrorKind::IncompleteOperator,
            line
        });
    }
    let mut lexer = lexer(&["!x"]);
    assert!(lexer.get_token().is_err());
    assert_eq!(lexer.get_token().unwrap().token_type, identifier("x"));
}

#[test]
fn a_string_without_escapes_is_taken_as_it_is() {
    assert_eq!(scan(&["\"abc\""]), vec![(string_literal("abc"), 1), (TokenType::EndOfFile, 2)]);
    assert_eq!(scan(&["\"\""]), vec![(string_literal(""), 1), (TokenType::EndOfFile, 2)]);
    assert_eq!(scan(&["\"a # b\" # c"]), vec![(string_literal("a # b"), 1), (TokenType::EndOfFile, 2)]);
    assert_eq!(scan(&["\"var 1.5 >=\"x"]), vec![
        (string_literal("var 1.5 >="), 1),
        (identifier("x"), 1),
        (TokenType::EndOfFile, 2)
    ]);
}

#[test]
fn backslash_n_in_a_string_is_a_newline() {
    assert_eq!(scan(&["\"a\\nb\""]), vec![(string_literal("a\nb"), 1), (TokenType::EndOfFile, 2)]);
}

#[test]
fn a_string_that_is_not_closed_on_its_line_is_an_error() {
    assert_eq!(first_error(&["\"abc"]), LexicalError {
        kind: LexicalErrorKind::MultilineString,
        line: 1
    });
    assert_eq!(first_error(&["\"abc", "def\""]), LexicalError {
        kind: LexicalErrorKind::MultilineString,
        line: 1
    });
    assert_eq!(first_error(&["x", "", "y \""]), LexicalError {
        kind: LexicalErrorKind::MultilineString,
        line: 3
    });
}

#[test]
fn the_line_after_an_unclosed_string_is_counted() {
    let mut lexer = lexer(&["\"abc", "x"]);
    assert!(lexer.get_token().is_err());
    let x = lexer.get_token().unwrap();
    assert_eq!((x.token_type, x.line_number), (identifier("x"), 2));
}

#[test]
fn escape_errors_in_a_string_are_reported() {
    assert_eq!(first_error(&["\"a\\tb\""]), LexicalError {
        kind: LexicalErrorKind::InvalidEscape('t'),
        line: 1
    });
    assert_eq!(first_error(&["", "\"abc\\\""]), LexicalError {
        kind: LexicalErrorKind::UnterminatedEscape,
        line: 2
    });
    let mut lexer = lexer(&["\"a\\qb\" x"]);
    assert!(lexer.get_token().is_err());
    assert_eq!(lexer.get_token().unwrap().token_type, identifier("x"));
}

#[test]
fn a_character_that_starts_no_token_is_an_error_and_is_skipped() {
    for ch in ['@', '$', '%', '^', '~', '?', '[', ']', '\'', '.', '\\', '`', 'é'] {
        let source = format!("a {} b", ch);
        let mut lexer = lexer(&[source.as_str()]);
        assert_eq!(lexer.get_token().unwrap().token_type, identifier("a"));
        assert_eq!(lexer.get_token(), Err(LexicalError {
            kind: LexicalErrorKind::IllegalCharacter(ch),
            line: 1
        }));
        assert_eq!(lexer.get_token().unwrap().token_type, identifier("b"));
        assert_eq!(lexer.get_token().unwrap().token_type, TokenType::EndOfFile);
    }
}

#[test]
fn a_token_carries_one_plus_the_newlines_before_it() {
    assert_eq!(scan(&["a", "b", "", "", "c d", "# e", "  f"]), vec![
        (identifier("a"), 1),
        (identifier("b"), 2),
        (identifier("c"), 5),
        (identifier("d"), 5),
        (identifier("f"), 7),
        (TokenType::EndOfFile, 8),
    ]);
}

#[test]
fn a_token_at_the_end_of_a_line_does_not_hide_the_newline() {
    assert_eq!(scan(&["1", "2.5", "x", "\"s\"", "+", ";"]), vec![
        (TokenType::IntValue(1), 1),
        (real_literal("2.5"), 2),
        (identifier("x"), 3),
        (string_literal("s"), 4),
        (TokenType::Plus, 5),
        (TokenType::Semicolon, 6),
        (TokenType::EndOfFile, 7),
    ]);
}

#[test]
fn comments_and_empty_lines_advance_the_line_without_a_token() {
    assert_eq!(scan(&["# one", "", "# three", "x # four", "", "y"]), vec![
        (identifier("x"), 4),
        (identifier("y"), 6),
        (TokenType::EndOfFile, 7),
    ]);
}

#[test]
fn a_comment_runs_to_the_end_of_its_line_only() {
    assert_eq!(scan(&["a # b c", "d"]), vec![
        (identifier("a"), 1),
        (identifier("d"), 2),
        (TokenType::EndOfFile, 3)
    ]);
    assert_eq!(scan(&["a#b#c", "#", "d#"]), vec![
        (identifier("a"), 1),
        (identifier("d"), 3),
        (TokenType::EndOfFile, 4)
    ]);
}

#[test]
fn a_newline_inside_a_line_counts_as_a_newline() {
    assert_eq!(scan(&["a\nb", "c"]), vec![
        (identifier("a"), 1),
        (identifier("b"), 2),
        (identifier("c"), 3),
        (TokenType::EndOfFile, 4),
    ]);
}

#[test]
fn carriage_returns_and_tabs_separate_tokens() {
    assert_eq!(scan(&["a\tb\r", "c\r"]), vec![
        (identifier("a"), 1),
        (identifier("b"), 1),
        (identifier("c"), 2),
        (TokenType::EndOfFile, 3),
    ]);
}

#[test]
fn a_declaration_with_a_comment_is_scanned_end_to_end() {
    assert_eq!(scan(&["var x := 3 + 4.5; # add"]), vec![
        (TokenType::Var, 1),
        (identifier("x"), 1),
        (TokenType::Assignment, 1),
        (TokenType::IntValue(3), 1),
        (TokenType::Plus, 1),
        (real_literal("4.5"), 1),
        (TokenType::Semicolon, 1),
        (TokenType::EndOfFile, 2),
    ]);
    match &scan(&["var x := 3 + 4.5; # add"])[5].0 {
        TokenType::RealValue(text) => assert_eq!(text.parse::<f64>().unwrap(), 4.5),
        other => panic!("{:?}", other),
    }
}

#[test]
fn a_small_program_is_scanned() {
    let source = [
        "# greatest common divisor",
        "function gcd(int a, int b) {",
        "    while (b != 0) {",
        "        var t := b;",
        "        b := a - a / b * b;",
        "        a := t;",
        "    }",
        "    return a;",
        "}",
    ];
    let tokens = scan(&source);
    assert_eq!(tokens.len(), 42);
    assert_eq!(tokens[0], (TokenType::Function, 2));
    assert_eq!(tokens[1], (identifier("gcd"), 2));
    assert_eq!(tokens[10], (TokenType::While, 3));
    assert_eq!(tokens[13], (TokenType::NotEqual, 3));
    assert_eq!(tokens[14], (TokenType::IntValue(0), 3));
    assert_eq!(tokens[39], (TokenType::Semicolon, 8));
    assert_eq!(tokens[40], (TokenType::RightBrace, 9));
    assert_eq!(tokens[41], (TokenType::EndOfFile, 10));
}

#[test]
fn a_new_token_holds_what_it_is_given() {
    let token = Token::new(TokenType::IntValue(5), 17);
    assert_eq!(token.token_type, TokenType::IntValue(5));
    assert_eq!(token.line_number, 17);
}

/// The kinds and lines of the tokens of a source that is given to the scanner
/// one line at a time: the next line only when the lines before are used up.
fn scan_line_by_line(lines: &[&str]) -> Vec<(TokenType, i32)> {
    let mut pending = lines.iter();
    let mut lexer = Lexer::new(vec![pending.next().unwrap().to_string()]).unwrap();
    let mut tokens = Vec::new();
    loop {
        let token: Token = lexer.get_token().unwrap();
        if token.token_type == TokenType::EndOfFile {
            match pending.next() {
                Some(line) => {
                    lexer.push_line(line.to_string());
                    continue;
                },
                None => {
                    tokens.push((token.token_type, token.line_number));
                    return tokens;
                },
            }
        }
        tokens.push((token.token_type, token.line_number));
    }
}

#[test]
fn a_source_given_line_by_line_is_scanned_like_the_whole_source() {
    let sources: [&[&str]; 7] = [
        &["var x := 3 + 4.5; # add"],
        &["a", "b", "", "", "c d", "# e", "  f"],
        &["1", "2.5", "x", "\"s\"", "+", ";"],
        &["", "", ""],
        &[">", "=", "++", "+"],
        &["# one", "", "# three", "x # four", "", "y"],
        &["function f() {", "  return \"a\\nb\";", "}", ""],
    ];
    for source in sources {
        assert_eq!(scan_line_by_line(source), scan(source));
    }
}

#[test]
fn a_line_given_after_the_end_of_file_is_scanned_at_the_next_call() {
    let mut lexer = lexer(&["a"]);
    assert_eq!(lexer.get_token().unwrap().token_type, identifier("a"));
    let end = lexer.get_token().unwrap();
    assert_eq!((end.token_type, end.line_number), (TokenType::EndOfFile, 2));
    lexer.push_line("b c".to_string());
    let b = lexer.get_token().unwrap();
    assert_eq!((b.token_type, b.line_number), (identifier("b"), 2));
    let c = lexer.get_token().unwrap();
    assert_eq!((c.token_type, c.line_number), (identifier("c"), 2));
    let end = lexer.get_token().unwrap();
    assert_eq!((end.token_type, end.line_number), (TokenType::EndOfFile, 3));
}

#[test]
fn lines_given_ahead_are_scanned_in_their_order() {
    let mut lexer = lexer(&["a"]);
    lexer.push_line("b".to_string());
    lexer.push_line("".to_string());
    lexer.push_line("c".to_string());
    let mut tokens = Vec::new();
    loop {
        let token = lexer.get_token().unwrap();
        let done = token.token_type == TokenType::EndOfFile;
        tokens.push((token.token_type, token.line_number));
        if done {
            break;
        }
    }
    assert_eq!(tokens, vec![
        (identifier("a"), 1),
        (identifier("b"), 2),
        (identifier("c"), 4),
        (TokenType::EndOfFile, 5),
    ]);
}

#[test]
fn an_error_on_a_line_given_later_carries_that_line() {
    let mut lexer = lexer(&["x"]);
    assert_eq!(lexer.get_token().unwrap().token_type, identifier("x"));
    assert_eq!(lexer.get_token().unwrap().token_type, TokenType::EndOfFile);
    lexer.push_line("\"open".to_string());
    assert_eq!(lexer.get_token(), Err(LexicalError {
        kind: LexicalErrorKind::MultilineString,
        line: 2
    }));
}
