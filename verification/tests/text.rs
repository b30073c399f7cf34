use sam_lexer::compiler::lexer::Lexer;
use sam_lexer::compiler::text::{
    chars_of, format_int, parse_decimal, string_from_chars, word_matches, word_starts_with,
};
use sam_lexer::compiler::token::LexicalErrorKind;

fn chars(text: &str) -> Vec<char> {
    text.chars().collect()
}

#[test]
fn a_string_is_made_of_the_characters_in_their_order() {
    assert_eq!(string_from_chars(&['a', 'b', 'c']), "abc");
    assert_eq!(string_from_chars(&[]), "");
    assert_eq!(string_from_chars(&['\n', ' ', 'é', '語']), "\n é語");
}

#[test]
fn the_characters_of_a_string_come_in_their_order() {
    assert_eq!(chars_of("abc"), vec!['a', 'b', 'c']);
    assert_eq!(chars_of(""), Vec::<char>::new());
    assert_eq!(chars_of("é語 x"), vec!['é', '語', ' ', 'x']);
}

#[test]
fn characters_and_strings_convert_back_and_forth() {
    for text in ["", "x", "var x := 3;", "tab\there", "ü"] {
        assert_eq!(string_from_chars(&chars_of(text)), text);
    }
}

#[test]
fn word_matches_asks_for_the_same_characters() {
    assert!(word_matches(&chars("while"), "while"));
    assert!(word_matches(&chars(""), ""));
    assert!(!word_matches(&chars("whil"), "while"));
    assert!(!word_matches(&chars("whiles"), "while"));
    assert!(!word_matches(&chars("whale"), "while"));
    assert!(!word_matches(&chars(""), "while"));
    assert!(!word_matches(&chars("while"), ""));
}

#[test]
fn word_starts_with_asks_for_a_beginning() {
    assert!(word_starts_with(">=", &chars("")));
    assert!(word_starts_with(">=", &chars(">")));
    assert!(word_starts_with(">=", &chars(">=")));
    assert!(!word_starts_with(">=", &chars("=")));
    assert!(!word_starts_with(">=", &chars(">==")));
    assert!(!word_starts_with(">", &chars(">=")));
    assert!(!word_starts_with("", &chars(">")));
    assert!(word_starts_with("", &chars("")));
}

#[test]
fn numerals_are_read_in_base_ten() {
    assert_eq!(parse_decimal(&chars("0")), Some(0));
    assert_eq!(parse_decimal(&chars("7")), Some(7));
    assert_eq!(parse_decimal(&chars("42")), Some(42));
    assert_eq!(parse_decimal(&chars("1234567890")), Some(1234567890));
    assert_eq!(parse_decimal(&chars("007")), Some(7));
    assert_eq!(parse_decimal(&chars("0000000000000000012")), Some(12));
}

#[test]
fn the_largest_integer_is_read_and_the_next_one_is_not() {
    assert_eq!(parse_decimal(&chars("2147483647")), Some(i32::MAX));
    assert_eq!(parse_decimal(&chars("2147483648")), None);
    assert_eq!(parse_decimal(&chars("2147483650")), None);
    assert_eq!(parse_decimal(&chars("3000000000")), None);
    assert_eq!(parse_decimal(&chars("99999999999999999999")), None);
    assert_eq!(parse_decimal(&chars("02147483647")), Some(i32::MAX));
}

#[test]
fn what_is_not_made_of_digits_is_no_numeral() {
    assert_eq!(parse_decimal(&chars("")), None);
    assert_eq!(parse_decimal(&chars("-1")), None);
    assert_eq!(parse_decimal(&chars("+1")), None);
    assert_eq!(parse_decimal(&chars("1.5")), None);
    assert_eq!(parse_decimal(&chars("12a")), None);
    assert_eq!(parse_decimal(&chars("a12")), None);
    assert_eq!(parse_decimal(&chars(" 1")), None);
    assert_eq!(parse_decimal(&chars("٣")), None);
}

#[test]
fn integers_are_written_in_base_ten() {
    assert_eq!(format_int(0), "0");
    assert_eq!(format_int(9), "9");
    assert_eq!(format_int(10), "10");
    assert_eq!(format_int(12345), "12345");
    assert_eq!(format_int(-1), "-1");
    assert_eq!(format_int(-1000), "-1000");
    assert_eq!(format_int(i32::MAX), "2147483647");
    assert_eq!(format_int(i32::MIN), "-2147483648");
}

#[test]
fn a_written_integer_is_read_back() {
    for value in [0, 1, 9, 10, 99, 100, 4096, 65535, 1000000007, i32::MAX] {
        assert_eq!(parse_decimal(&chars_of(&format_int(value))), Some(value));
        assert_eq!(format_int(value), value.to_string());
    }
}

#[test]
fn a_body_without_backslash_stands_for_itself() {
    assert_eq!(Lexer::convert_string_escape(&chars("abc")), Ok("abc".to_string()));
    assert_eq!(Lexer::convert_string_escape(&chars("")), Ok(String::new()));
    assert_eq!(Lexer::convert_string_escape(&chars("n n")), Ok("n n".to_string()));
}

#[test]
fn backslash_n_stands_for_a_newline() {
    assert_eq!(Lexer::convert_string_escape(&chars("a\\nb")), Ok("a\nb".to_string()));
    assert_eq!(Lexer::convert_string_escape(&chars("\\n")), Ok("\n".to_string()));
    assert_eq!(Lexer::convert_string_escape(&chars("\\n\\n")), Ok("\n\n".to_string()));
    assert_eq!(Lexer::convert_string_escape(&chars("x\\nn")), Ok("x\nn".to_string()));
}

#[test]
fn another_character_after_a_backslash_is_an_invalid_escape() {
    assert_eq!(
        Lexer::convert_string_escape(&chars("a\\tb")),
        Err(LexicalErrorKind::InvalidEscape('t'))
    );
    assert_eq!(
        Lexer::convert_string_escape(&chars("\\\\")),
        Err(LexicalErrorKind::InvalidEscape('\\'))
    );
    assert_eq!(
        Lexer::convert_string_escape(&chars("\\N")),
        Err(LexicalErrorKind::InvalidEscape('N'))
    );
}

#[test]
fn a_backslash_at_the_end_is_an_unterminated_escape() {
    assert_eq!(
        Lexer::convert_string_escape(&chars("abc\\")),
        Err(LexicalErrorKind::UnterminatedEscape)
    );
    assert_eq!(Lexer::convert_string_escape(&chars("\\")), Err(LexicalErrorKind::UnterminatedEscape));
    assert_eq!(
        Lexer::convert_string_escape(&chars("\\n\\")),
        Err(LexicalErrorKind::UnterminatedEscape)
    );
}

#[test]
fn the_first_error_in_a_body_is_the_one_reported() {
    assert_eq!(
        Lexer::convert_string_escape(&chars("\\x\\")),
        Err(LexicalErrorKind::InvalidEscape('x'))
    );
    assert_eq!(
        Lexer::convert_string_escape(&chars("\\a\\b")),
        Err(LexicalErrorKind::InvalidEscape('a'))
    );
}
