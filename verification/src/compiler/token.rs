//! Tokens, their kinds, and the errors a scan can end in.

use crate::compiler::text::{format_int, int_text};
use vstd::prelude::*;

verus! {

/// The classification of one lexeme.
///
/// A real literal keeps the text of the literal, digits, a point, digits: the
/// scanner decides the shape of the literal, a caller turns it into a number.
#[derive(Debug)]
pub enum TokenType {
    Var,
    Boolean,
    Int,
    Real,
    String,
    Function,
    True,
    False,
    If,
    Elsif,
    Else,
    While,
    Return,
    Identifier(String),
    IntValue(i32),
    RealValue(String),
    StringValue(String),
    Plus,
    Minus,
    Asterisk,
    Slash,
    LeftBrace,
    RightBrace,
    LeftParen,
    RightParen,
    Equal,
    NotEqual,
    Assignment,
    GreaterThan,
    GreaterEqual,
    LessThan,
    LessEqual,
    LogicalAnd,
    LogicalOr,
    Increment,
    Decrement,
    Comma,
    Semicolon,
    EndOfFile,
}

/// The mathematical value of a [`TokenType`]: the same variants, with text as
/// a sequence of characters.
pub enum TokenKind {
    Var,
    Boolean,
    Int,
    Real,
    String,
    Function,
    True,
    False,
    If,
    Elsif,
    Else,
    While,
    Return,
    Identifier(Seq<char>),
    IntValue(i32),
    RealValue(Seq<char>),
    StringValue(Seq<char>),
    Plus,
    Minus,
    Asterisk,
    Slash,
    LeftBrace,
    RightBrace,
    LeftParen,
    RightParen,
    Equal,
    NotEqual,
    Assignment,
    GreaterThan,
    GreaterEqual,
    LessThan,
    LessEqual,
    LogicalAnd,
    LogicalOr,
    Increment,
    Decrement,
    Comma,
    Semicolon,
    EndOfFile,
}

impl View for TokenType {
    type V = TokenKind;

    open spec fn view(&self) -> TokenKind {
        match self {
            TokenType::Var => TokenKind::Var,
            TokenType::Boolean => TokenKind::Boolean,
            TokenType::Int => TokenKind::Int,
            TokenType::Real => TokenKind::Real,
            TokenType::String => TokenKind::String,
            TokenType::Function => TokenKind::Function,
            TokenType::True => TokenKind::True,
            TokenType::False => TokenKind::False,
            TokenType::If => TokenKind::If,
            TokenType::Elsif => TokenKind::Elsif,
            TokenType::Else => TokenKind::Else,
            TokenType::While => TokenKind::While,
            TokenType::Return => TokenKind::Return,
            TokenType::Identifier(name) => TokenKind::Identifier(name@),
            TokenType::IntValue(value) => TokenKind::IntValue(*value),
            TokenType::RealValue(text) => TokenKind::RealValue(text@),
            TokenType::StringValue(text) => TokenKind::StringValue(text@),
            TokenType::Plus => TokenKind::Plus,
            TokenType::Minus => TokenKind::Minus,
            TokenType::Asterisk => TokenKind::Asterisk,
            TokenType::Slash => TokenKind::Slash,
            TokenType::LeftBrace => TokenKind::LeftBrace,
            TokenType::RightBrace => TokenKind::RightBrace,
            TokenType::LeftParen => TokenKind::LeftParen,
            TokenType::RightParen => TokenKind::RightParen,
            TokenType::Equal => TokenKind::Equal,
            TokenType::NotEqual => TokenKind::NotEqual,
            TokenType::Assignment => TokenKind::Assignment,
            TokenType::GreaterThan => TokenKind::GreaterThan,
            TokenType::GreaterEqual => TokenKind::GreaterEqual,
            TokenType::LessThan => TokenKind::LessThan,
            TokenType::LessEqual => TokenKind::LessEqual,
            TokenType::LogicalAnd => TokenKind::LogicalAnd,
            TokenType::LogicalOr => TokenKind::LogicalOr,
            TokenType::Increment => TokenKind::Increment,
            TokenType::Decrement => TokenKind::Decrement,
            TokenType::Comma => TokenKind::Comma,
            TokenType::Semicolon => TokenKind::Semicolon,
            TokenType::EndOfFile => TokenKind::EndOfFile,
        }
    }
}

impl TokenKind {
    /// A number that tells the variants apart: 0 to 12 for the keywords in
    /// table order, 13 to 16 for the kinds that carry a value, 17 to 37 for the
    /// operators in table order, 38 for the end of the input.
    pub open spec fn ordinal(self) -> int {
        match self {
            TokenKind::Var => 0,
            TokenKind::Boolean => 1,
            TokenKind::Int => 2,
            TokenKind::Real => 3,
            TokenKind::String => 4,
            TokenKind::Function => 5,
            TokenKind::True => 6,
            TokenKind::False => 7,
            TokenKind::If => 8,
            TokenKind::Elsif => 9,
            TokenKind::Else => 10,
            TokenKind::While => 11,
            TokenKind::Return => 12,
            TokenKind::Identifier(_) => 13,
            TokenKind::IntValue(_) => 14,
            TokenKind::RealValue(_) => 15,
            TokenKind::StringValue(_) => 16,
            TokenKind::Plus => 17,
            TokenKind::Minus => 18,
            TokenKind::Asterisk => 19,
            TokenKind::Slash => 20,
            TokenKind::LeftBrace => 21,
            TokenKind::RightBrace => 22,
            TokenKind::LeftParen => 23,
            TokenKind::RightParen => 24,
            TokenKind::Equal => 25,
            TokenKind::NotEqual => 26,
            TokenKind::Assignment => 27,
            TokenKind::GreaterThan => 28,
            TokenKind::GreaterEqual => 29,
            TokenKind::LessThan => 30,
            TokenKind::LessEqual => 31,
            TokenKind::LogicalAnd => 32,
            TokenKind::LogicalOr => 33,
            TokenKind::Increment => 34,
            TokenKind::Decrement => 35,
            TokenKind::Comma => 36,
            TokenKind::Semicolon => 37,
            TokenKind::EndOfFile => 38,
        }
    }

    /// Whether the kind is one of the thirteen keywords.
    pub open spec fn is_keyword(self) -> bool {
        0 <= self.ordinal() <= 12
    }

    /// Whether the kind is one of the twenty-one operators and punctuation marks.
    pub open spec fn is_operator(self) -> bool {
        17 <= self.ordinal() <= 37
    }

    /// How a token of this kind is shown: a keyword or an operator by its
    /// spelling, a kind that carries a value by its name with the value in
    /// parentheses, the end of the input as `EOF`.
    pub open spec fn display(self) -> Seq<char> {
        match self {
            TokenKind::Var => "var"@,
            TokenKind::Boolean => "boolean"@,
            TokenKind::Int => "int"@,
            TokenKind::Real => "real"@,
            TokenKind::String => "string"@,
            TokenKind::Function => "function"@,
            TokenKind::True => "true"@,
            TokenKind::False => "false"@,
            TokenKind::If => "if"@,
            TokenKind::Elsif => "elsif"@,
            TokenKind::Else => "else"@,
            TokenKind::While => "while"@,
            TokenKind::Return => "return"@,
            TokenKind::Identifier(name) => "Identifier("@ + name + ")"@,
            TokenKind::IntValue(value) => "IntValue("@ + int_text(value as int) + ")"@,
            TokenKind::RealValue(text) => "RealValue("@ + text + ")"@,
            TokenKind::StringValue(text) => "String("@ + text + ")"@,
            TokenKind::Plus => "+"@,
            TokenKind::Minus => "-"@,
            TokenKind::Asterisk => "*"@,
            TokenKind::Slash => "/"@,
            TokenKind::LeftBrace => "{"@,
            TokenKind::RightBrace => "}"@,
            TokenKind::LeftParen => "("@,
            TokenKind::RightParen => ")"@,
            TokenKind::Equal => "="@,
            TokenKind::NotEqual => "!="@,
            TokenKind::Assignment => ":="@,
            TokenKind::GreaterThan => ">"@,
            TokenKind::GreaterEqual => ">="@,
            TokenKind::LessThan => "<"@,
            TokenKind::LessEqual => "<="@,
            TokenKind::LogicalAnd => "&&"@,
            TokenKind::LogicalOr => "||"@,
            TokenKind::Increment => "++"@,
            TokenKind::Decrement => "--"@,
            TokenKind::Comma => ","@,
            TokenKind::Semicolon => ";"@,
            TokenKind::EndOfFile => "EOF"@,
        }
    }
}

impl TokenType {
    /// The ordinal of the variant, see [`TokenKind::ordinal`].
    pub fn ordinal(&self) -> (r: u8)
        ensures
            r == self@.ordinal(),
    {
        match self {
            TokenType::Var => 0,
            TokenType::Boolean => 1,
            TokenType::Int => 2,
            TokenType::Real => 3,
            TokenType::String => 4,
            TokenType::Function => 5,
            TokenType::True => 6,
            TokenType::False => 7,
            TokenType::If => 8,
            TokenType::Elsif => 9,
            TokenType::Else => 10,
            TokenType::While => 11,
            TokenType::Return => 12,
            TokenType::Identifier(_) => 13,
            TokenType::IntValue(_) => 14,
            TokenType::RealValue(_) => 15,
            TokenType::StringValue(_) => 16,
            TokenType::Plus => 17,
            TokenType::Minus => 18,
            TokenType::Asterisk => 19,
            TokenType::Slash => 20,
            TokenType::LeftBrace => 21,
            TokenType::RightBrace => 22,
            TokenType::LeftParen => 23,
            TokenType::RightParen => 24,
            TokenType::Equal => 25,
            TokenType::NotEqual => 26,
            TokenType::Assignment => 27,
            TokenType::GreaterThan => 28,
            TokenType::GreaterEqual => 29,
            TokenType::LessThan => 30,
            TokenType::LessEqual => 31,
            TokenType::LogicalAnd => 32,
            TokenType::LogicalOr => 33,
            TokenType::Increment => 34,
            TokenType::Decrement => 35,
            TokenType::Comma => 36,
            TokenType::Semicolon => 37,
            TokenType::EndOfFile => 38,
        }
    }

    /// The token as text, see [`TokenKind::display`].
    pub fn to_string(&self) -> (text: String)
        ensures
            text@ == self@.display(),
    {
        match self {
            TokenType::Var => String::from_str("var"),
            TokenType::Boolean => String::from_str("boolean"),
            TokenType::Int => String::from_str("int"),
            TokenType::Real => String::from_str("real"),
            TokenType::String => String::from_str("string"),
            TokenType::Function => String::from_str("function"),
            TokenType::True => String::from_str("true"),
            TokenType::False => String::from_str("false"),
            TokenType::If => String::from_str("if"),
            TokenType::Elsif => String::from_str("elsif"),
            TokenType::Else => String::from_str("else"),
            TokenType::While => String::from_str("while"),
            TokenType::Return => String::from_str("return"),
            TokenType::Identifier(name) => wrapped("Identifier(", name.as_str()),
            TokenType::IntValue(value) => wrapped("IntValue(", format_int(*value).as_str()),
            TokenType::RealValue(text) => wrapped("RealValue(", text.as_str()),
            TokenType::StringValue(text) => wrapped("String(", text.as_str()),
            TokenType::Plus => String::from_str("+"),
            TokenType::Minus => String::from_str("-"),
            TokenType::Asterisk => String::from_str("*"),
            TokenType::Slash => String::from_str("/"),
            TokenType::LeftBrace => String::from_str("{"),
            TokenType::RightBrace => String::from_str("}"),
            TokenType::LeftParen => String::from_str("("),
            TokenType::RightParen => String::from_str(")"),
            TokenType::Equal => String::from_str("="),
            TokenType::NotEqual => String::from_str("!="),
            TokenType::Assignment => String::from_str(":="),
            TokenType::GreaterThan => String::from_str(">"),
            TokenType::GreaterEqual => String::from_str(">="),
            TokenType::LessThan => String::from_str("<"),
            TokenType::LessEqual => String::from_str("<="),
            TokenType::LogicalAnd => String::from_str("&&"),
            TokenType::LogicalOr => String::from_str("||"),
            TokenType::Increment => String::from_str("++"),
            TokenType::Decrement => String::from_str("--"),
            TokenType::Comma => String::from_str(","),
            TokenType::Semicolon => String::from_str(";"),
            TokenType::EndOfFile => String::from_str("EOF"),
        }
    }
}

/// A name, an opening parenthesis that belongs to it, a value and a closing
/// parenthesis.
fn wrapped(opening: &str, value: &str) -> (text: String)
    ensures
        text@ == opening@ + value@ + ")"@,
{
    let mut text = String::from_str(opening);
    text.append(value);
    text.append(")");
    text
}

impl PartialEq for TokenType {
    fn eq(&self, other: &Self) -> (r: bool) {
        match self {
            TokenType::Identifier(a) => match other {
                TokenType::Identifier(b) => a.eq(b),
                _ => false,
            },
            TokenType::IntValue(a) => match other {
                TokenType::IntValue(b) => *a == *b,
                _ => false,
            },
            TokenType::RealValue(a) => match other {
                TokenType::RealValue(b) => a.eq(b),
                _ => false,
            },
            TokenType::StringValue(a) => match other {
                TokenType::StringValue(b) => a.eq(b),
                _ => false,
            },
            _ => self.ordinal() == other.ordinal(),
        }
    }
}

impl vstd::std_specs::cmp::PartialEqSpecImpl for TokenType {
    open spec fn obeys_eq_spec() -> bool {
        true
    }

    open spec fn eq_spec(&self, other: &Self) -> bool {
        self@ == other@
    }
}

impl Clone for TokenType {
    fn clone(&self) -> (r: Self)
        ensures
            r@ == self@,
    {
        match self {
            TokenType::Var => TokenType::Var,
            TokenType::Boolean => TokenType::Boolean,
            TokenType::Int => TokenType::Int,
            TokenType::Real => TokenType::Real,
            TokenType::String => TokenType::String,
            TokenType::Function => TokenType::Function,
            TokenType::True => TokenType::True,
            TokenType::False => TokenType::False,
            TokenType::If => TokenType::If,
            TokenType::Elsif => TokenType::Elsif,
            TokenType::Else => TokenType::Else,
            TokenType::While => TokenType::While,
            TokenType::Return => TokenType::Return,
            TokenType::Identifier(name) => TokenType::Identifier(name.clone()),
            TokenType::IntValue(value) => TokenType::IntValue(*value),
            TokenType::RealValue(text) => TokenType::RealValue(text.clone()),
            TokenType::StringValue(text) => TokenType::StringValue(text.clone()),
            TokenType::Plus => TokenType::Plus,
            TokenType::Minus => TokenType::Minus,
            TokenType::Asterisk => TokenType::Asterisk,
            TokenType::Slash => TokenType::Slash,
            TokenType::LeftBrace => TokenType::LeftBrace,
            TokenType::RightBrace => TokenType::RightBrace,
            TokenType::LeftParen => TokenType::LeftParen,
            TokenType::RightParen => TokenType::RightParen,
            TokenType::Equal => TokenType::Equal,
            TokenType::NotEqual => TokenType::NotEqual,
            TokenType::Assignment => TokenType::Assignment,
            TokenType::GreaterThan => TokenType::GreaterThan,
            TokenType::GreaterEqual => TokenType::GreaterEqual,
            TokenType::LessThan => TokenType::LessThan,
            TokenType::LessEqual => TokenType::LessEqual,
            TokenType::LogicalAnd => TokenType::LogicalAnd,
            TokenType::LogicalOr => TokenType::LogicalOr,
            TokenType::Increment => TokenType::Increment,
            TokenType::Decrement => TokenType::Decrement,
            TokenType::Comma => TokenType::Comma,
            TokenType::Semicolon => TokenType::Semicolon,
            TokenType::EndOfFile => TokenType::EndOfFile,
        }
    }
}

/// One token: its kind and the line of the source on which it stands.
#[derive(Debug)]
pub struct Token {
    pub token_type: TokenType,
    pub line_number: i32,
}

/// The mathematical value of a [`Token`].
pub struct TokenView {
    pub kind: TokenKind,
    pub line: int,
}

impl View for Token {
    type V = TokenView;

    open spec fn view(&self) -> TokenView {
        TokenView { kind: self.token_type@, line: self.line_number as int }
    }
}

impl PartialEq for Token {
    fn eq(&self, other: &Self) -> (r: bool) {
        self.token_type.eq(&other.token_type) && self.line_number == other.line_number
    }
}

impl vstd::std_specs::cmp::PartialEqSpecImpl for Token {
    open spec fn obeys_eq_spec() -> bool {
        true
    }

    open spec fn eq_spec(&self, other: &Self) -> bool {
        self@ == other@
    }
}

impl Clone for Token {
    fn clone(&self) -> (r: Self)
        ensures
            r@ == self@,
    {
        Token { token_type: self.token_type.clone(), line_number: self.line_number }
    }
}

impl Token {
    /// A token of the given kind on the given line.
    pub fn new(token_type: TokenType, line_number: i32) -> (token: Token)
        ensures
            token.token_type == token_type,
            token.line_number == line_number,
    {
        Token { token_type, line_number }
    }
}

/// Why a stretch of source text is no token.
#[derive(Clone, Copy, Debug, PartialEq, Eq, Structural)]
pub enum LexicalErrorKind {
    /// A character that starts no token; it is skipped.
    IllegalCharacter(char),
    /// Digits and a point, followed by this character in place of a digit.
    MalformedNumber(char),
    /// A string literal that meets the end of its line before its closing quote.
    MultilineString,
    /// A backslash in a string literal followed by this character, which is not `n`.
    InvalidEscape(char),
    /// A string literal whose last character is a lone backslash.
    UnterminatedEscape,
    /// The start of a two-character operator without its second character.
    IncompleteOperator,
    /// An integer literal above the largest 32-bit signed integer.
    IntegerOutOfRange,
}

impl LexicalErrorKind {
    /// The character that an error of this kind names, if it names one.
    pub open spec fn spec_detail(self) -> Option<char> {
        match self {
            LexicalErrorKind::IllegalCharacter(c) => Some(c),
            LexicalErrorKind::MalformedNumber(c) => Some(c),
            LexicalErrorKind::InvalidEscape(c) => Some(c),
            _ => None,
        }
    }

    /// The character that an error of this kind names, if it names one: the
    /// character that is illegal, that stands in the place of a digit, or
    /// that follows a backslash.
    #[verifier::when_used_as_spec(spec_detail)]
    pub fn detail(self) -> (r: Option<char>)
        ensures
            r == self.spec_detail(),
    {
        match self {
            LexicalErrorKind::IllegalCharacter(c) => Some(c),
            LexicalErrorKind::MalformedNumber(c) => Some(c),
            LexicalErrorKind::InvalidEscape(c) => Some(c),
            _ => None,
        }
    }
}

/// A lexical error and the line on which it was met.
#[derive(Clone, Copy, Debug, PartialEq, Eq, Structural)]
pub struct LexicalError {
    pub kind: LexicalErrorKind,
    pub line: i32,
}

/// The mathematical value of a [`LexicalError`].
pub struct Fault {
    pub kind: LexicalErrorKind,
    pub line: int,
}

impl View for LexicalError {
    type V = Fault;

    open spec fn view(&self) -> Fault {
        Fault { kind: self.kind, line: self.line as int }
    }
}

/// The source cannot be scanned at all.
#[derive(Clone, Copy, Debug, PartialEq, Eq, Structural)]
pub enum ConfigError {
    /// The source has no line.
    EmptySource,
}

} // verus!
