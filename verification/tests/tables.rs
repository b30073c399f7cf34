use sam_lexer::compiler::lexer::Lexer;
use sam_lexer::compiler::token::{LexicalErrorKind, TokenType};

fn chars(text: &str) -> Vec<char> {
    text.chars().collect()
}

#[test]
fn is_keyword_test() {
    let token_type: Option<TokenType> = Lexer::is_keyword(&['v', 'a', 'r']);
    assert!(token_type.unwrap() == TokenType::Var);
    let token_type: Option<TokenType> = Lexer::is_keyword(&['h', 'o', 'g', 'e']);
    assert!(token_type.is_none());
}

#[test]
fn is_operator_start_test() {
    let result = Lexer::is_operator_start('=');
    assert!(result);

    let result = Lexer::is_operator_start('a');
    assert!(!result);
}

#[test]
fn every_keyword_is_found_by_its_spelling() {
    let table = [
        ("var", TokenType::Var),
        ("boolean", TokenType::Boolean),
        ("int", TokenType::Int),
        ("real", TokenType::Real),
        ("string", TokenType::String),
        ("function", TokenType::Function),
        ("true", TokenType::True),
        ("false", TokenType::False),
        ("if", TokenType::If),
        ("elsif", TokenType::Elsif),
        ("else", TokenType::Else),
        ("while", TokenType::While),
        ("return", TokenType::Return),
    ];
    for (spelling, kind) in table {
        assert_eq!(Lexer::is_keyword(&chars(spelling)), Some(kind));
    }
}

#[test]
fn keywords_are_matched_whole_and_in_lower_case() {
    assert_eq!(Lexer::is_keyword(&chars("va")), None);
    assert_eq!(Lexer::is_keyword(&chars("vars")), None);
    assert_eq!(Lexer::is_keyword(&chars("Var")), None);
    assert_eq!(Lexer::is_keyword(&chars("")), None);
    assert_eq!(Lexer::is_keyword(&chars("elseif")), None);
}

#[test]
fn every_operator_is_found_by_its_spelling() {
    let table = [
        ("+", TokenType::Plus),
        ("-", TokenType::Minus),
        ("*", TokenType::Asterisk),
        ("/", TokenType::Slash),
        ("{", TokenType::LeftBrace),
        ("}", TokenType::RightBrace),
        ("(", TokenType::LeftParen),
        (")", TokenType::RightParen),
        ("=", TokenType::Equal),
        ("!=", TokenType::NotEqual),
        (":=", TokenType::Assignment),
        (">", TokenType::GreaterThan),
        (">=", TokenType::GreaterEqual),
        ("<", TokenType::LessThan),
        ("<=", TokenType::LessEqual),
        ("&&", TokenType::LogicalAnd),
        ("||", TokenType::LogicalOr),
        ("++", TokenType::Increment),
        ("--", TokenType::Decrement),
        (",", TokenType::Comma),
        (";", TokenType::Semicolon),
    ];
    for (spelling, kind) in table {
        assert_eq!(Lexer::get_operator(&chars(spelling)), Some(kind));
        assert!(Lexer::in_operator(&chars(spelling)));
        assert!(Lexer::is_operator_start(spelling.chars().next().unwrap()));
    }
}

#[test]
fn beginnings_of_operators_are_no_operators() {
    for spelling in ["!", ":", "&", "|"] {
        assert!(Lexer::in_operator(&chars(spelling)));
        assert_eq!(Lexer::get_operator(&chars(spelling)), None);
    }
    assert_eq!(Lexer::get_operator(&chars("")), None);
    assert_eq!(Lexer::get_operator(&chars("=>")), None);
    assert_eq!(Lexer::get_operator(&chars("+++")), None);
}

#[test]
fn in_operator_tells_what_operators_begin_with() {
    assert!(Lexer::in_operator(&chars("")));
    assert!(Lexer::in_operator(&chars(">")));
    assert!(Lexer::in_operator(&chars(">=")));
    assert!(!Lexer::in_operator(&chars(">==")));
    assert!(!Lexer::in_operator(&chars("=>")));
    assert!(!Lexer::in_operator(&chars("> ")));
    assert!(!Lexer::in_operator(&chars("a")));
    assert!(!Lexer::in_operator(&chars("\n")));
}

#[test]
fn is_operator_start_knows_the_seventeen_first_characters() {
    for ch in "+-*/{}()=!:><&|,;".chars() {
        assert!(Lexer::is_operator_start(ch), "{}", ch);
    }
    for ch in "aZ09_ \t\r\n#\"'.@$%^~?[]\\".chars() {
        assert!(!Lexer::is_operator_start(ch), "{}", ch);
    }
}

#[test]
fn token_types_compare_by_variant_and_value() {
    assert!(TokenType::Var == TokenType::Var);
    assert!(TokenType::Var != TokenType::Int);
    assert!(TokenType::Plus != TokenType::Increment);
    assert!(TokenType::Identifier("a".to_string()) == TokenType::Identifier("a".to_string()));
    assert!(TokenType::Identifier("a".to_string()) != TokenType::Identifier("b".to_string()));
    assert!(TokenType::Identifier("a".to_string()) != TokenType::StringValue("a".to_string()));
    assert!(TokenType::RealValue("1.5".to_string()) != TokenType::StringValue("1.5".to_string()));
    assert!(TokenType::IntValue(3) == TokenType::IntValue(3));
    assert!(TokenType::IntValue(3) != TokenType::IntValue(4));
    assert!(TokenType::String != TokenType::StringValue("string".to_string()));
    assert!(TokenType::EndOfFile == TokenType::EndOfFile);
}

#[test]
fn a_cloned_token_type_equals_the_one_it_was_made_from() {
    let kinds = [
        TokenType::While,
        TokenType::Identifier("count".to_string()),
        TokenType::IntValue(-12),
        TokenType::RealValue("0.25".to_string()),
        TokenType::StringValue("a\nb".to_string()),
        TokenType::LessEqual,
        TokenType::EndOfFile,
    ];
    for kind in kinds.iter() {
        assert_eq!(&kind.clone(), kind);
    }
}

#[test]
fn ordinals_tell_all_variants_apart() {
    let kinds = [
        TokenType::Var,
        TokenType::Boolean,
        TokenType::Int,
        TokenType::Real,
        TokenType::String,
        TokenType::Function,
        TokenType::True,
        TokenType::False,
        TokenType::If,
        TokenType::Elsif,
        TokenType::Else,
        TokenType::While,
        TokenType::Return,
        TokenType::Identifier(String::new()),
        TokenType::IntValue(0),
        TokenType::RealValue(String::new()),
        TokenType::StringValue(String::new()),
        TokenType::Plus,
        TokenType::Minus,
        TokenType::Asterisk,
        TokenType::Slash,
        TokenType::LeftBrace,
        TokenType::RightBrace,
        TokenType::LeftParen,
        TokenType::RightParen,
        TokenType::Equal,
        TokenType::NotEqual,
        TokenType::Assignment,
        TokenType::GreaterThan,
        TokenType::GreaterEqual,
        TokenType::LessThan,
        TokenType::LessEqual,
        TokenType::LogicalAnd,
        TokenType::LogicalOr,
        TokenType::Increment,
        TokenType::Decrement,
        TokenType::Comma,
        TokenType::Semicolon,
        TokenType::EndOfFile,
    ];
    for (i, kind) in kinds.iter().enumerate() {
        assert_eq!(kind.ordinal() as usize, i);
    }
}

#[test]
fn tokens_are_shown_by_spelling_or_by_name_and_value() {
    assert_eq!(TokenType::Var.to_string(), "var");
    assert_eq!(TokenType::Boolean.to_string(), "boolean");
    assert_eq!(TokenType::String.to_string(), "string");
    assert_eq!(TokenType::Return.to_string(), "return");
    assert_eq!(TokenType::Identifier("x1".to_string()).to_string(), "Identifier(x1)");
    assert_eq!(TokenType::IntValue(42).to_string(), "IntValue(42)");
    assert_eq!(TokenType::IntValue(0).to_string(), "IntValue(0)");
    assert_eq!(TokenType::IntValue(-7).to_string(), "IntValue(-7)");
    assert_eq!(TokenType::IntValue(i32::MAX).to_string(), "IntValue(2147483647)");
    assert_eq!(TokenType::IntValue(i32::MIN).to_string(), "IntValue(-2147483648)");
    assert_eq!(TokenType::RealValue("4.5".to_string()).to_string(), "RealValue(4.5)");
    assert_eq!(TokenType::StringValue("a b".to_string()).to_string(), "String(a b)");
    assert_eq!(TokenType::StringValue(String::new()).to_string(), "String()");
    assert_eq!(TokenType::Plus.to_string(), "+");
    assert_eq!(TokenType::LeftBrace.to_string(), "{");
    assert_eq!(TokenType::RightBrace.to_string(), "}");
    assert_eq!(TokenType::NotEqual.to_string(), "!=");
    assert_eq!(TokenType::Assignment.to_string(), ":=");
    assert_eq!(TokenType::LogicalAnd.to_string(), "&&");
    assert_eq!(TokenType::LogicalOr.to_string(), "||");
    assert_eq!(TokenType::Decrement.to_string(), "--");
    assert_eq!(TokenType::Semicolon.to_string(), ";");
    assert_eq!(TokenType::EndOfFile.to_string(), "EOF");
}

#[test]
fn a_fixed_token_is_shown_by_the_spelling_that_the_tables_find_it_by() {
    for spelling in ["var", "elsif", "while", "function"] {
        let kind = Lexer::is_keyword(&chars(spelling)).unwrap();
        assert_eq!(kind.to_string(), spelling);
    }
    for spelling in ["+", "<=", "||", "(", ",", ":="] {
        let kind = Lexer::get_operator(&chars(spelling)).unwrap();
        assert_eq!(kind.to_string(), spelling);
    }
}

#[test]
fn an_error_names_the_character_it_is_about() {
    assert_eq!(LexicalErrorKind::IllegalCharacter('@').detail(), Some('@'));
    assert_eq!(LexicalErrorKind::MalformedNumber('x').detail(), Some('x'));
    assert_eq!(LexicalErrorKind::InvalidEscape('t').detail(), Some('t'));
    assert_eq!(LexicalErrorKind::MultilineString.detail(), None);
    assert_eq!(LexicalErrorKind::UnterminatedEscape.detail(), None);
    assert_eq!(LexicalErrorKind::IncompleteOperator.detail(), None);
    assert_eq!(LexicalErrorKind::IntegerOutOfRange.detail(), None);
}
