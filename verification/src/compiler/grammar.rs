//! The lexical grammar.
//!
//! A source is a sequence of lines; the grammar reads it as one sequence of
//! characters in which every line is followed by one newline. All positions
//! are indices into that sequence. The end of the sequence is read as the end
//! of a line.

use crate::compiler::text::{is_digit, parse_int};
use crate::compiler::token::{Fault, LexicalErrorKind, Token, TokenKind, TokenView};
use vstd::prelude::*;

verus! {

/// The lines of a source as sequences of characters.
pub open spec fn line_texts(lines: Seq<String>) -> Seq<Seq<char>> {
    Seq::new(lines.len(), |i: int| lines[i]@)
}

/// The characters of a source: each line, followed by one newline.
pub open spec fn join_lines(lines: Seq<Seq<char>>) -> Seq<char>
    decreases lines.len(),
{
    if lines.len() == 0 {
        Seq::empty()
    } else {
        join_lines(lines.drop_last()) + lines.last() + seq!['\n']
    }
}

/// The position of the first character of a line, counted from zero.
pub open spec fn line_start(lines: Seq<Seq<char>>, row: int) -> int {
    join_lines(lines.take(row)).len() as int
}

/// A letter of the Latin alphabet, in either case.
pub open spec fn is_letter(c: char) -> bool {
    ('a' <= c <= 'z') || ('A' <= c <= 'Z')
}

/// A character that can begin a word: a letter or an underscore.
pub open spec fn is_word_start(c: char) -> bool {
    is_letter(c) || c == '_'
}

/// A character that can continue a word: a letter, an underscore or a digit.
pub open spec fn is_word_part(c: char) -> bool {
    is_word_start(c) || is_digit(c)
}

/// A character that separates tokens: space, tab, carriage return or newline.
pub open spec fn is_space(c: char) -> bool {
    c == ' ' || c == '\t' || c == '\r' || c == '\n'
}

/// The kinds of character of which a lexeme can hold a run.
pub enum CharClass {
    /// A decimal digit.
    Digit,
    /// A letter, an underscore or a digit.
    Word,
    /// Anything but a double quote and a newline: the body of a string literal.
    Quoted,
}

/// Whether a character belongs to a class.
pub open spec fn member(class: CharClass, c: char) -> bool {
    match class {
        CharClass::Digit => is_digit(c),
        CharClass::Word => is_word_part(c),
        CharClass::Quoted => c != '"' && c != '\n',
    }
}

/// The position at which the run of characters of one class that starts at
/// `from` ends: the first position from there on that holds no such character.
pub open spec fn run_end(s: Seq<char>, from: int, class: CharClass) -> int
    decreases s.len() - from,
{
    if 0 <= from < s.len() && member(class, s[from]) {
        run_end(s, from + 1, class)
    } else {
        from
    }
}

/// The character at a position; past the end, a newline.
pub open spec fn char_at(s: Seq<char>, i: int) -> char {
    if 0 <= i < s.len() {
        s[i]
    } else {
        '\n'
    }
}

/// The keywords: each spelling with its kind.
pub open spec fn keyword_table() -> Seq<(Seq<char>, TokenKind)> {
    seq![
        ("var"@, TokenKind::Var),
        ("boolean"@, TokenKind::Boolean),
        ("int"@, TokenKind::Int),
        ("real"@, TokenKind::Real),
        ("string"@, TokenKind::String),
        ("function"@, TokenKind::Function),
        ("true"@, TokenKind::True),
        ("false"@, TokenKind::False),
        ("if"@, TokenKind::If),
        ("elsif"@, TokenKind::Elsif),
        ("else"@, TokenKind::Else),
        ("while"@, TokenKind::While),
        ("return"@, TokenKind::Return),
    ]
}

/// The operators and punctuation marks: each spelling with its kind.
pub open spec fn operator_table() -> Seq<(Seq<char>, TokenKind)> {
    seq![
        ("+"@, TokenKind::Plus),
        ("-"@, TokenKind::Minus),
        ("*"@, TokenKind::Asterisk),
        ("/"@, TokenKind::Slash),
        ("{"@, TokenKind::LeftBrace),
        ("}"@, TokenKind::RightBrace),
        ("("@, TokenKind::LeftParen),
        (")"@, TokenKind::RightParen),
        ("="@, TokenKind::Equal),
        ("!="@, TokenKind::NotEqual),
        (":="@, TokenKind::Assignment),
        (">"@, TokenKind::GreaterThan),
        (">="@, TokenKind::GreaterEqual),
        ("<"@, TokenKind::LessThan),
        ("<="@, TokenKind::LessEqual),
        ("&&"@, TokenKind::LogicalAnd),
        ("||"@, TokenKind::LogicalOr),
        ("++"@, TokenKind::Increment),
        ("--"@, TokenKind::Decrement),
        (","@, TokenKind::Comma),
        (";"@, TokenKind::Semicolon),
    ]
}

/// The kind of the first entry, from `from` on, whose spelling is the word.
pub open spec fn lookup(table: Seq<(Seq<char>, TokenKind)>, word: Seq<char>, from: int) -> Option<
    TokenKind,
>
    decreases table.len() - from,
{
    if from < 0 || from >= table.len() {
        None
    } else if table[from].0 == word {
        Some(table[from].1)
    } else {
        lookup(table, word, from + 1)
    }
}

/// The keyword that a word spells, if it spells one.
pub open spec fn keyword_kind(word: Seq<char>) -> Option<TokenKind> {
    lookup(keyword_table(), word, 0)
}

/// The operator that a lexeme spells, if it spells one.
pub open spec fn operator_kind(lexeme: Seq<char>) -> Option<TokenKind> {
    lookup(operator_table(), lexeme, 0)
}

/// Whether some operator begins with the given characters.
pub open spec fn is_operator_prefix(prefix: Seq<char>) -> bool {
    exists|i: int|
        0 <= i < operator_table().len() && prefix.is_prefix_of(#[trigger] operator_table()[i].0)
}

/// The position at which the blank text that starts at `from` ends.
///
/// Blank text is made of separators and of comments: a comment runs from a `#`
/// through the newline that ends its line. `in_comment` says that `from` lies
/// inside a comment.
pub open spec fn blank_end(s: Seq<char>, from: int, in_comment: bool) -> int
    decreases s.len() - from,
{
    if from < 0 || from >= s.len() {
        from
    } else if in_comment {
        blank_end(s, from + 1, s[from] != '\n')
    } else if is_space(s[from]) {
        blank_end(s, from + 1, false)
    } else if s[from] == '#' {
        blank_end(s, from + 1, true)
    } else {
        from
    }
}

/// The number of newlines at the positions from `from` up to, not including, `to`.
pub open spec fn newlines(s: Seq<char>, from: int, to: int) -> nat
    decreases to - from,
{
    if from < 0 || to <= from || to > s.len() {
        0
    } else {
        newlines(s, from, to - 1) + if s[to - 1] == '\n' {
            1nat
        } else {
            0nat
        }
    }
}

/// The line number reached from `line` after that many newlines. Line numbers
/// do not pass the largest 32-bit signed integer.
pub open spec fn line_after(line: int, breaks: nat) -> int {
    if line + breaks > i32::MAX {
        i32::MAX as int
    } else {
        line + breaks
    }
}

/// What stands at a position: a token or an error, and where the text after it begins.
pub struct Lexeme {
    pub result: Result<TokenKind, LexicalErrorKind>,
    pub end: int,
}

/// A numeral at `at`: digits, then perhaps a point and more digits.
///
/// Digits alone are an integer literal. Digits, a point and digits are a real
/// literal. A point followed by no digit is an error that ends before the
/// character found in the digit's place.
pub open spec fn number_at(s: Seq<char>, at: int) -> Lexeme {
    let point = run_end(s, at, CharClass::Digit);
    if char_at(s, point) == '.' {
        let end = run_end(s, point + 1, CharClass::Digit);
        if end == point + 1 {
            Lexeme { result: Err(LexicalErrorKind::MalformedNumber(char_at(s, end))), end }
        } else {
            Lexeme { result: Ok(TokenKind::RealValue(s.subrange(at, end))), end }
        }
    } else {
        Lexeme {
            result: match parse_int(s.subrange(at, point)) {
                Some(value) => Ok(TokenKind::IntValue(value)),
                None => Err(LexicalErrorKind::IntegerOutOfRange),
            },
            end: point,
        }
    }
}

/// A word at `at`: a keyword where the word spells one, else an identifier.
pub open spec fn word_at(s: Seq<char>, at: int) -> Lexeme {
    let end = run_end(s, at, CharClass::Word);
    let word = s.subrange(at, end);
    Lexeme {
        result: Ok(
            match keyword_kind(word) {
                Some(kind) => kind,
                None => TokenKind::Identifier(word),
            },
        ),
        end,
    }
}

/// A character before the text that a string literal's body stands for, if the
/// rest of the body stands for any.
pub open spec fn prepend(
    c: char,
    rest: Result<Seq<char>, LexicalErrorKind>,
) -> Result<Seq<char>, LexicalErrorKind> {
    match rest {
        Ok(text) => Ok(seq![c] + text),
        Err(kind) => Err(kind),
    }
}

/// The text that the body of a string literal stands for, from `from` on.
///
/// A backslash and an `n` stand for a newline, any other character for itself.
/// A backslash before another character, and a backslash at the end, are
/// errors; the first one met is the result. `escaping` says that the character
/// before `from` was a backslash that opened an escape.
pub open spec fn unescape_from(body: Seq<char>, from: int, escaping: bool) -> Result<
    Seq<char>,
    LexicalErrorKind,
>
    decreases body.len() - from,
{
    if from < 0 || from >= body.len() {
        if escaping {
            Err(LexicalErrorKind::UnterminatedEscape)
        } else {
            Ok(Seq::empty())
        }
    } else if escaping {
        if body[from] == 'n' {
            prepend('\n', unescape_from(body, from + 1, false))
        } else {
            Err(LexicalErrorKind::InvalidEscape(body[from]))
        }
    } else if body[from] == '\\' {
        unescape_from(body, from + 1, true)
    } else {
        prepend(body[from], unescape_from(body, from + 1, false))
    }
}

/// The text that the body of a string literal stands for.
pub open spec fn unescape(body: Seq<char>) -> Result<Seq<char>, LexicalErrorKind> {
    unescape_from(body, 0, false)
}

/// A string literal at `at`, where a double quote stands.
///
/// The body runs to the next double quote on the line. A literal that meets
/// the end of the line first is an error that ends before the newline.
pub open spec fn string_at(s: Seq<char>, at: int) -> Lexeme {
    let close = run_end(s, at + 1, CharClass::Quoted);
    if char_at(s, close) == '"' {
        Lexeme {
            result: match unescape(s.subrange(at + 1, close)) {
                Ok(text) => Ok(TokenKind::StringValue(text)),
                Err(kind) => Err(kind),
            },
            end: close + 1,
        }
    } else {
        Lexeme { result: Err(LexicalErrorKind::MultilineString), end: close }
    }
}

/// The end of the operator lexeme that starts at `at` and reaches `end` so far:
/// the lexeme takes one more character as long as some operator begins with
/// the longer text.
pub open spec fn operator_end(s: Seq<char>, at: int, end: int) -> int
    decreases s.len() - end,
{
    if 0 <= at < end < s.len() && is_operator_prefix(s.subrange(at, end + 1)) {
        operator_end(s, at, end + 1)
    } else {
        end
    }
}

/// An operator at `at`: the longest lexeme that operators begin with, which is
/// an error where it spells no operator itself.
pub open spec fn operator_at(s: Seq<char>, at: int) -> Lexeme {
    let end = operator_end(s, at, at + 1);
    Lexeme {
        result: match operator_kind(s.subrange(at, end)) {
            Some(kind) => Ok(kind),
            None => Err(LexicalErrorKind::IncompleteOperator),
        },
        end,
    }
}

/// What stands at `at`, a position that holds neither a separator nor the
/// start of a comment.
pub open spec fn token_at(s: Seq<char>, at: int) -> Lexeme {
    let c = s[at];
    if is_digit(c) {
        number_at(s, at)
    } else if is_word_start(c) {
        word_at(s, at)
    } else if c == '"' {
        string_at(s, at)
    } else if is_operator_prefix(seq![c]) {
        operator_at(s, at)
    } else {
        Lexeme { result: Err(LexicalErrorKind::IllegalCharacter(c)), end: at + 1 }
    }
}

/// The result of one scan: the token or the error, the position at which the
/// next scan begins, and the line on which the token or the error stands.
pub struct Outcome {
    pub result: Result<TokenKind, LexicalErrorKind>,
    pub end: int,
    pub line: int,
}

impl Outcome {
    /// Whether the scan yielded the end-of-file token.
    pub open spec fn is_end_of_file(self) -> bool {
        self.result == Ok::<TokenKind, LexicalErrorKind>(TokenKind::EndOfFile)
    }
}

/// One scan of the source `s` from the position `from`, which lies on the line
/// numbered `line`.
///
/// The scan passes the blank text and counts its newlines. At the end of the
/// source it yields the end-of-file token, else what stands at the position
/// reached.
pub open spec fn next_token(s: Seq<char>, from: int, line: int) -> Outcome {
    let at = blank_end(s, from, false);
    let line = line_after(line, newlines(s, from, at));
    if at >= s.len() {
        Outcome { result: Ok(TokenKind::EndOfFile), end: at, line }
    } else {
        let lexeme = token_at(s, at);
        Outcome { result: lexeme.result, end: lexeme.end, line }
    }
}

/// The tokens of a source that stand before its first error, and that error.
pub struct Scan {
    pub tokens: Seq<TokenView>,
    pub fault: Option<Fault>,
}

/// The scan of the text `s` from the position `from` on the line `line`: token
/// after token, through the end-of-file token or up to the first error.
///
/// A token that is not the end of the file ends after the position at which
/// its scan began and within the text, so a scan from within the text stops
/// for no other reason.
pub open spec fn scan_all(s: Seq<char>, from: int, line: int) -> Scan
    decreases s.len() - from,
{
    let outcome = next_token(s, from, line);
    match outcome.result {
        Err(kind) => Scan {
            tokens: Seq::empty(),
            fault: Some(Fault { kind, line: outcome.line }),
        },
        Ok(kind) => {
            let token = TokenView { kind, line: outcome.line };
            if kind != TokenKind::EndOfFile && from < outcome.end <= s.len() {
                let rest = scan_all(s, outcome.end, outcome.line);
                Scan { tokens: seq![token] + rest.tokens, fault: rest.fault }
            } else {
                Scan { tokens: seq![token], fault: None }
            }
        },
    }
}

/// The mathematical values of a sequence of tokens.
pub open spec fn token_views(tokens: Seq<Token>) -> Seq<TokenView> {
    Seq::new(tokens.len(), |i: int| tokens[i]@)
}

/// A run ends at the one position that only characters of the class lead to
/// and that holds none.
pub proof fn lemma_run_end(s: Seq<char>, from: int, class: CharClass, end: int)
    requires
        0 <= from <= end <= s.len(),
        forall|i: int| from <= i < end ==> member(class, #[trigger] s[i]),
        end < s.len() ==> !member(class, s[end]),
    ensures
        run_end(s, from, class) == end,
    decreases end - from,
{
    if from < end {
        assert(member(class, s[from]));
        lemma_run_end(s, from + 1, class, end);
    }
}

/// A run lies within the source, holds only characters of its class, and is
/// followed by none.
pub proof fn lemma_run_end_is_maximal(s: Seq<char>, from: int, class: CharClass)
    requires
        0 <= from <= s.len(),
    ensures
        from <= run_end(s, from, class) <= s.len(),
        forall|i: int| from <= i < run_end(s, from, class) ==> member(class, #[trigger] s[i]),
        run_end(s, from, class) < s.len() ==> !member(class, s[run_end(s, from, class)]),
    decreases s.len() - from,
{
    if from < s.len() && member(class, s[from]) {
        lemma_run_end_is_maximal(s, from + 1, class);
    }
}

/// Digits that are followed neither by a digit nor by a point are an integer
/// literal: a token with their value where it fits in 32 bits, else an error.
pub proof fn lemma_integer_literal(s: Seq<char>, at: int, end: int)
    requires
        0 <= at < end <= s.len(),
        forall|i: int| at <= i < end ==> is_digit(#[trigger] s[i]),
        !is_digit(char_at(s, end)),
        char_at(s, end) != '.',
    ensures
        token_at(s, at) == (Lexeme {
            result: match parse_int(s.subrange(at, end)) {
                Some(value) => Ok(TokenKind::IntValue(value)),
                None => Err(LexicalErrorKind::IntegerOutOfRange),
            },
            end,
        }),
{
    assert(is_digit(s[at]));
    lemma_run_end(s, at, CharClass::Digit, end);
}

/// Digits, a point and one or more digits, followed by no further digit, are a
/// real literal, which holds the text as it is written.
pub proof fn lemma_real_literal(s: Seq<char>, at: int, point: int, end: int)
    requires
        0 <= at < point,
        point + 1 < end <= s.len(),
        forall|i: int| at <= i < point ==> is_digit(#[trigger] s[i]),
        s[point] == '.',
        forall|i: int| point < i < end ==> is_digit(#[trigger] s[i]),
        !is_digit(char_at(s, end)),
    ensures
        token_at(s, at) == (Lexeme {
            result: Ok(TokenKind::RealValue(s.subrange(at, end))),
            end,
        }),
{
    assert(is_digit(s[at]));
    lemma_run_end(s, at, CharClass::Digit, point);
    lemma_run_end(s, point + 1, CharClass::Digit, end);
}

/// Digits and a point that no digit follows are an error, which ends before
/// the character that stands in the digit's place.
pub proof fn lemma_malformed_number(s: Seq<char>, at: int, point: int)
    requires
        0 <= at < point < s.len(),
        forall|i: int| at <= i < point ==> is_digit(#[trigger] s[i]),
        s[point] == '.',
        !is_digit(char_at(s, point + 1)),
    ensures
        token_at(s, at) == (Lexeme {
            result: Err(LexicalErrorKind::MalformedNumber(char_at(s, point + 1))),
            end: point + 1,
        }),
{
    assert(is_digit(s[at]));
    lemma_run_end(s, at, CharClass::Digit, point);
    lemma_run_end(s, point + 1, CharClass::Digit, point + 1);
}

/// A word is a keyword where it spells one and an identifier with the word as
/// its name where it spells none.
pub proof fn lemma_word(s: Seq<char>, at: int, end: int)
    requires
        0 <= at < end <= s.len(),
        is_word_start(s[at]),
        forall|i: int| at <= i < end ==> is_word_part(#[trigger] s[i]),
        !is_word_part(char_at(s, end)),
    ensures
        token_at(s, at) == (Lexeme {
            result: Ok(
                match keyword_kind(s.subrange(at, end)) {
                    Some(kind) => kind,
                    None => TokenKind::Identifier(s.subrange(at, end)),
                },
            ),
            end,
        }),
{
    lemma_run_end(s, at, CharClass::Word, end);
}

/// A double quote, a body without quote or newline, and a closing quote are a
/// string literal: a token with the text that the body stands for, or the
/// error in the body's escapes.
pub proof fn lemma_string_literal(s: Seq<char>, at: int, close: int)
    requires
        0 <= at < close < s.len(),
        s[at] == '"',
        forall|i: int| at < i < close ==> member(CharClass::Quoted, #[trigger] s[i]),
        s[close] == '"',
    ensures
        token_at(s, at) == (Lexeme {
            result: match unescape(s.subrange(at + 1, close)) {
                Ok(text) => Ok(TokenKind::StringValue(text)),
                Err(kind) => Err(kind),
            },
            end: close + 1,
        }),
{
    lemma_run_end(s, at + 1, CharClass::Quoted, close);
}

/// A string literal that reaches the end of its line without a closing quote
/// is an error, which ends before the newline.
pub proof fn lemma_multiline_string(s: Seq<char>, at: int, close: int)
    requires
        0 <= at < close <= s.len(),
        s[at] == '"',
        forall|i: int| at < i < close ==> member(CharClass::Quoted, #[trigger] s[i]),
        char_at(s, close) == '\n',
    ensures
        token_at(s, at) == (Lexeme {
            result: Err(LexicalErrorKind::MultilineString),
            end: close,
        }),
{
    lemma_run_end(s, at + 1, CharClass::Quoted, close);
}

/// While operators begin with the lexeme as it grows, the lexeme goes on.
proof fn lemma_operator_end_reaches(s: Seq<char>, at: int, from: int, end: int)
    requires
        0 <= at < from <= end <= s.len(),
        forall|k: int| from < k <= end ==> is_operator_prefix(#[trigger] s.subrange(at, k)),
        end < s.len() ==> !is_operator_prefix(s.subrange(at, end + 1)),
    ensures
        operator_end(s, at, from) == end,
    decreases end - from,
{
    if from < end {
        assert(is_operator_prefix(s.subrange(at, from + 1)));
        lemma_operator_end_reaches(s, at, from + 1, end);
    }
}

/// The longest match: an operator lexeme is the longest text at its place
/// that operators begin with at each of its lengths. It is the operator that
/// it spells, and an error where it spells none.
pub proof fn lemma_operator(s: Seq<char>, at: int, end: int)
    requires
        0 <= at < end <= s.len(),
        !is_digit(s[at]),
        !is_word_start(s[at]),
        s[at] != '"',
        forall|k: int| at < k <= end ==> is_operator_prefix(#[trigger] s.subrange(at, k)),
        end < s.len() ==> !is_operator_prefix(s.subrange(at, end + 1)),
    ensures
        token_at(s, at) == (Lexeme {
            result: match operator_kind(s.subrange(at, end)) {
                Some(kind) => Ok(kind),
                None => Err(LexicalErrorKind::IncompleteOperator),
            },
            end,
        }),
{
    assert(is_operator_prefix(s.subrange(at, at + 1)));
    assert(s.subrange(at, at + 1) =~= seq![s[at]]);
    lemma_operator_end_reaches(s, at, at + 1, end);
}

/// A character that is no digit, begins no word, no string and no operator is
/// an error by itself.
pub proof fn lemma_illegal_character(s: Seq<char>, at: int)
    requires
        0 <= at < s.len(),
        !is_digit(s[at]),
        !is_word_start(s[at]),
        s[at] != '"',
        !is_operator_prefix(seq![s[at]]),
    ensures
        token_at(s, at) == (Lexeme {
            result: Err(LexicalErrorKind::IllegalCharacter(s[at])),
            end: at + 1,
        }),
{
}

/// A character that occurs in the spelling of an operator.
pub open spec fn is_operator_char(c: char) -> bool {
    c == '+' || c == '-' || c == '*' || c == '/' || c == '{' || c == '}' || c == '(' || c == ')'
        || c == '=' || c == '!' || c == ':' || c == '>' || c == '<' || c == '&' || c == '|'
        || c == ',' || c == ';'
}

/// The spellings of the operators: one or two characters, all of them
/// operator characters.
pub proof fn lemma_operator_spellings()
    ensures
        operator_table().len() == 21,
        forall|i: int|
            0 <= i < 21 ==> 1 <= (#[trigger] operator_table()[i]).0.len() <= 2,
        forall|i: int, j: int|
            0 <= i < 21 && 0 <= j < operator_table()[i].0.len() ==> is_operator_char(
                #[trigger] operator_table()[i].0[j],
            ),
{
    reveal_strlit("+");
    reveal_strlit("-");
    reveal_strlit("*");
    reveal_strlit("/");
    reveal_strlit("{");
    reveal_strlit("}");
    reveal_strlit("(");
    reveal_strlit(")");
    reveal_strlit("=");
    reveal_strlit("!=");
    reveal_strlit(":=");
    reveal_strlit(">");
    reveal_strlit(">=");
    reveal_strlit("<");
    reveal_strlit("<=");
    reveal_strlit("&&");
    reveal_strlit("||");
    reveal_strlit("++");
    reveal_strlit("--");
    reveal_strlit(",");
    reveal_strlit(";");
}

/// What operators begin with is made of at most two operator characters.
pub proof fn lemma_operator_prefix(prefix: Seq<char>)
    requires
        is_operator_prefix(prefix),
    ensures
        prefix.len() <= 2,
        forall|j: int| 0 <= j < prefix.len() ==> is_operator_char(#[trigger] prefix[j]),
{
    lemma_operator_spellings();
    let i = choose|i: int|
        0 <= i < operator_table().len() && prefix.is_prefix_of(#[trigger] operator_table()[i].0);
    let spelling = operator_table()[i].0;
    assert forall|j: int| 0 <= j < prefix.len() implies is_operator_char(#[trigger] prefix[j]) by {
        assert(prefix[j] == spelling.subrange(0, prefix.len() as int)[j]);
        assert(is_operator_char(operator_table()[i].0[j]));
    }
}

/// The source up to a row is the beginning of the whole source.
pub proof fn lemma_join_lines_prefix(lines: Seq<Seq<char>>, row: int)
    requires
        0 <= row <= lines.len(),
    ensures
        join_lines(lines.take(row)).is_prefix_of(join_lines(lines)),
    decreases lines.len(),
{
    if row == lines.len() {
        assert(lines.take(row) =~= lines);
    } else {
        lemma_join_lines_prefix(lines.drop_last(), row);
        assert(lines.drop_last().take(row) =~= lines.take(row));
        let shorter = join_lines(lines.drop_last());
        let part = join_lines(lines.take(row));
        assert(part =~= join_lines(lines).subrange(0, part.len() as int)) by {
            assert(part =~= shorter.subrange(0, part.len() as int));
        }
    }
}

/// Where a line lies in the source: its characters stand from its start on,
/// a newline follows them, and the next line starts after that newline.
pub proof fn lemma_line_in_source(lines: Seq<Seq<char>>, row: int)
    requires
        0 <= row < lines.len(),
    ensures
        0 <= line_start(lines, row),
        line_start(lines, row + 1) == line_start(lines, row) + lines[row].len() + 1,
        line_start(lines, row + 1) <= join_lines(lines).len(),
        forall|i: int|
            line_start(lines, row) <= i < line_start(lines, row) + lines[row].len()
                ==> #[trigger] join_lines(lines)[i] == lines[row][i - line_start(lines, row)],
        join_lines(lines)[line_start(lines, row) + lines[row].len()] == '\n',
{
    let upto = lines.take(row + 1);
    assert(upto.drop_last() =~= lines.take(row));
    assert(upto.last() == lines[row]);
    let joined = join_lines(upto);
    assert(joined == join_lines(lines.take(row)) + lines[row] + seq!['\n']);
    lemma_join_lines_prefix(lines, row + 1);
    let whole = join_lines(lines);
    assert(joined =~= whole.subrange(0, joined.len() as int));
    let start = line_start(lines, row);
    assert forall|i: int| start <= i < start + lines[row].len() implies #[trigger] whole[i]
        == lines[row][i - start] by {
        assert(whole[i] == joined[i]);
    }
    assert(whole[start + lines[row].len()] == joined[start + lines[row].len()]);
}

/// The whole source ends where a line after the last one would start.
pub proof fn lemma_source_length(lines: Seq<Seq<char>>)
    ensures
        line_start(lines, lines.len() as int) == join_lines(lines).len(),
        line_start(lines, 0) == 0,
{
    assert(lines.take(lines.len() as int) =~= lines);
    assert(lines.take(0).len() == 0);
}

} // verus!
