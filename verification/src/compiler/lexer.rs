//! The scanner: a cursor over the lines of a source, and the state machine
//! that reads one token at a time through it.

use crate::compiler::grammar::{
    blank_end, is_operator_prefix, is_space, is_word_part, is_word_start, join_lines,
    keyword_kind, keyword_table, lemma_integer_literal, lemma_line_in_source,
    lemma_malformed_number, lemma_multiline_string, lemma_operator_prefix, lemma_real_literal,
    lemma_source_length, lemma_string_literal, lemma_word, line_after, line_start, line_texts,
    lookup, member, newlines, next_token, operator_end, operator_kind, operator_table, unescape,
    unescape_from, CharClass,
};
use crate::compiler::laws::lemma_join_lines_more;
use crate::compiler::text::{
    chars_of, is_digit, parse_decimal, string_from_chars, word_matches, word_starts_with,
};
use crate::compiler::token::{
    ConfigError, LexicalError, LexicalErrorKind, Token, TokenKind, TokenType,
};
use std::collections::VecDeque;
use std::mem::swap;
use vstd::prelude::*;
use vstd::slice::slice_subrange;

verus! {

/// The number of keywords.
pub const KEYWORD_COUNT: usize = 13;

/// The number of operators and punctuation marks.
pub const OPERATOR_COUNT: usize = 21;

/// An entry of the keyword table: a spelling and its kind.
fn keyword_entry(i: usize) -> (entry: (&'static str, TokenType))
    requires
        i < KEYWORD_COUNT,
    ensures
        entry.0@ == keyword_table()[i as int].0,
        entry.1@ == keyword_table()[i as int].1,
{
    match i {
        0 => ("var", TokenType::Var),
        1 => ("boolean", TokenType::Boolean),
        2 => ("int", TokenType::Int),
        3 => ("real", TokenType::Real),
        4 => ("string", TokenType::String),
        5 => ("function", TokenType::Function),
        6 => ("true", TokenType::True),
        7 => ("false", TokenType::False),
        8 => ("if", TokenType::If),
        9 => ("elsif", TokenType::Elsif),
        10 => ("else", TokenType::Else),
        11 => ("while", TokenType::While),
        _ => ("return", TokenType::Return),
    }
}

/// An entry of the operator table: a spelling and its kind.
fn operator_entry(i: usize) -> (entry: (&'static str, TokenType))
    requires
        i < OPERATOR_COUNT,
    ensures
        entry.0@ == operator_table()[i as int].0,
        entry.1@ == operator_table()[i as int].1,
{
    match i {
        0 => ("+", TokenType::Plus),
        1 => ("-", TokenType::Minus),
        2 => ("*", TokenType::Asterisk),
        3 => ("/", TokenType::Slash),
        4 => ("{", TokenType::LeftBrace),
        5 => ("}", TokenType::RightBrace),
        6 => ("(", TokenType::LeftParen),
        7 => (")", TokenType::RightParen),
        8 => ("=", TokenType::Equal),
        9 => ("!=", TokenType::NotEqual),
        10 => (":=", TokenType::Assignment),
        11 => (">", TokenType::GreaterThan),
        12 => (">=", TokenType::GreaterEqual),
        13 => ("<", TokenType::LessThan),
        14 => ("<=", TokenType::LessEqual),
        15 => ("&&", TokenType::LogicalAnd),
        16 => ("||", TokenType::LogicalOr),
        17 => ("++", TokenType::Increment),
        18 => ("--", TokenType::Decrement),
        19 => (",", TokenType::Comma),
        _ => (";", TokenType::Semicolon),
    }
}

/// The states of the scanner between two characters.
enum Status {
    /// Between tokens, in blank text.
    Initial,
    /// Inside a comment.
    Comment,
    /// In the digits of a numeral, before any point.
    IntPart,
    /// Just after the point of a numeral.
    DecimalPoint,
    /// In the digits after the point of a numeral.
    AfterDecimalPoint,
    /// In a word.
    AlNum,
    /// In the body of a string literal.
    String,
    /// In an operator.
    Operator,
}

/// What the scanner has established of the text `s` before it reads the
/// position `at`, in a scan that began at `from` on line `line0`.
///
/// Outside a lexeme the blank text from `from` on ends where the blank text
/// from `at` on ends. Inside one, the lexeme began at `mark`, where the blank
/// text ended, and the characters from there to `at` are what the state
/// stands for; `dot` is the position of the point of a numeral.
spec fn in_progress(
    status: Status,
    s: Seq<char>,
    from: int,
    line0: int,
    at: int,
    line: int,
    mark: int,
    dot: int,
) -> bool {
    match status {
        Status::Initial => {
            &&& blank_end(s, from, false) == blank_end(s, at, false)
            &&& line == line_after(line0, newlines(s, from, at))
        },
        Status::Comment => {
            &&& blank_end(s, from, false) == blank_end(s, at, true)
            &&& line == line_after(line0, newlines(s, from, at))
        },
        _ => {
            &&& from <= mark < at
            &&& blank_end(s, from, false) == mark
            &&& line == line_after(line0, newlines(s, from, mark))
            &&& match status {
                Status::IntPart => forall|i: int| mark <= i < at ==> is_digit(#[trigger] s[i]),
                Status::DecimalPoint => {
                    &&& mark < dot == at - 1
                    &&& s[dot] == '.'
                    &&& forall|i: int| mark <= i < dot ==> is_digit(#[trigger] s[i])
                },
                Status::AfterDecimalPoint => {
                    &&& mark < dot
                    &&& dot + 1 < at
                    &&& s[dot] == '.'
                    &&& forall|i: int| mark <= i < dot ==> is_digit(#[trigger] s[i])
                    &&& forall|i: int| dot < i < at ==> is_digit(#[trigger] s[i])
                },
                Status::AlNum => {
                    &&& is_word_start(s[mark])
                    &&& forall|i: int| mark <= i < at ==> is_word_part(#[trigger] s[i])
                },
                Status::String => {
                    &&& s[mark] == '"'
                    &&& forall|i: int| mark < i < at ==> member(CharClass::Quoted, #[trigger] s[i])
                },
                Status::Operator => {
                    &&& !is_digit(s[mark])
                    &&& !is_word_start(s[mark])
                    &&& s[mark] != '"'
                    &&& is_operator_prefix(seq![s[mark]])
                    &&& operator_end(s, mark, mark + 1) == operator_end(s, mark, at)
                },
                _ => true,
            }
        },
    }
}

/// Whether the character is a decimal digit.
fn digit(ch: char) -> (r: bool)
    ensures
        r == is_digit(ch),
{
    ch >= '0' && ch <= '9'
}

/// Whether the character can begin a word.
fn word_start(ch: char) -> (r: bool)
    ensures
        r == is_word_start(ch),
{
    (ch >= 'a' && ch <= 'z') || (ch >= 'A' && ch <= 'Z') || ch == '_'
}

/// Whether the character separates tokens.
fn separator(ch: char) -> (r: bool)
    ensures
        r == is_space(ch),
{
    ch == ' ' || ch == '\t' || ch == '\r' || ch == '\n'
}

/// A scanner over a source that is given line by line.
///
/// The scanner holds the line it is reading and the lines that follow it, as
/// far as they have been given. The lines before are let go once they are
/// read; what they were is remembered for the contracts only.
pub struct Lexer {
    current_line_number: i32,
    current_line: Vec<char>,
    current_index: usize,
    lines: VecDeque<String>,
    at_eol: bool,
    earlier: Ghost<Seq<Seq<char>>>,
}

impl Lexer {
    #[verifier::type_invariant]
    spec fn well_formed(self) -> bool {
        &&& self.current_index <= self.current_line.len()
        &&& self.at_eol ==> self.current_index == self.current_line.len()
        &&& 1 <= self.current_line_number
    }

    /// The lines of the source, as far as they have been given: those that
    /// have been read, the one that is being read, and those that follow.
    #[verifier::opaque]
    pub closed spec fn source(&self) -> Seq<Seq<char>> {
        self.earlier@.push(self.current_line@) + line_texts(self.lines@)
    }

    /// The source as one sequence of characters.
    pub open spec fn text(&self) -> Seq<char> {
        join_lines(self.source())
    }

    /// The position in the text of the first character of the current line.
    spec fn row_start(&self) -> int {
        line_start(self.source(), self.earlier@.len() as int)
    }

    /// The position in the text of the next character to be read.
    pub closed spec fn position(&self) -> int {
        self.row_start() + self.current_index + if self.at_eol { 1int } else { 0int }
    }

    /// The number of the line that the scanner has reached.
    pub closed spec fn line(&self) -> int {
        self.current_line_number as int
    }

    /// Where the cursor stands in the text: within it, and before the
    /// characters of the current line that are still unread.
    proof fn lemma_cursor(&self)
        requires
            self.well_formed(),
        ensures
            0 <= self.row_start(),
            0 <= self.position() <= self.text().len(),
            !self.at_eol ==> self.position() < self.text().len(),
            self.at_eol && self.lines@.len() > 0 ==> self.position() < self.text().len(),
            self.at_eol && self.lines@.len() == 0 ==> self.position() == self.text().len(),
            self.row_start() + self.current_line.len() < self.text().len(),
            forall|i: int|
                self.row_start() <= i < self.row_start() + self.current_line.len()
                    ==> #[trigger] self.text()[i] == self.current_line@[i - self.row_start()],
            self.text()[self.row_start() + self.current_line.len()] == '\n',
    {
        reveal(Lexer::source);
        let lines = self.source();
        let row = self.earlier@.len() as int;
        assert(lines[row] == self.current_line@);
        lemma_line_in_source(lines, row);
        lemma_source_length(lines);
        if self.lines@.len() > 0 {
            lemma_line_in_source(lines, row + 1);
        }
    }

    /// A scanner at the start of a source, on line one.
    ///
    /// The lines are those of the source that are at hand; more can be given
    /// later, see [`Lexer::push_line`]. A source without any line is refused.
    pub fn new(lines: Vec<String>) -> (r: Result<Lexer, ConfigError>)
        ensures
            match r {
                Ok(lexer) => {
                    &&& lines.len() > 0
                    &&& lexer.source() == line_texts(lines@)
                    &&& lexer.position() == 0
                    &&& lexer.line() == 1
                },
                Err(e) => lines.len() == 0 && e == ConfigError::EmptySource,
            },
    {
        let ghost given = lines@;
        let mut stack = lines;
        let mut queue: VecDeque<String> = VecDeque::new();
        while stack.len() > 0
            invariant
                stack@ + queue@ == given,
            decreases stack.len(),
        {
            let ghost above = stack@;
            let ghost below = queue@;
            match stack.pop() {
                Some(line) => {
                    queue.push_front(line);
                    assert(stack@ + queue@ =~= above + below);
                },
                None => {},
            }
        }
        assert(queue@ =~= given);
        let first_line = match queue.pop_front() {
            Some(line) => chars_of(line.as_str()),
            None => {
                return Err(ConfigError::EmptySource);
            },
        };
        let lexer = Lexer {
            current_line_number: 1,
            current_line: first_line,
            current_index: 0,
            lines: queue,
            at_eol: false,
            earlier: Ghost(Seq::empty()),
        };
        proof {
            reveal(Lexer::source);
            assert(lexer.source() =~= line_texts(given));
            lemma_source_length(lexer.source());
        }
        Ok(lexer)
    }

    /// Gives the scanner one more line of the source, the line after those it
    /// has been given so far.
    ///
    /// A scanner that has reached the end of its lines goes on with the new
    /// line at the next scan: the end-of-file token that it yielded before was
    /// the end of what it had been given.
    pub fn push_line(&mut self, line: String)
        ensures
            final(self).source() == old(self).source().push(line@),
            final(self).text() == old(self).text() + line@ + seq!['\n'],
            final(self).position() == old(self).position(),
            final(self).line() == old(self).line(),
    {
        proof {
            use_type_invariant(&*self);
            self.lemma_cursor();
        }
        // The queue is taken out of the scanner while it grows, and put back.
        let mut queue: VecDeque<String> = VecDeque::new();
        swap(&mut queue, &mut self.lines);
        queue.push_back(line);
        swap(&mut queue, &mut self.lines);
        proof {
            reveal(Lexer::source);
            let row = self.earlier@.len() as int;
            assert(self.source() =~= old(self).source().push(line@));
            assert(self.source().take(row) =~= old(self).source().take(row));
            lemma_join_lines_more(old(self).source(), line@);
        }
    }

    /// Reads the next character of the text, if there is one.
    ///
    /// After the last character of a line comes the newline that ends it; the
    /// next line is taken up once that newline has been read.
    fn getc(&mut self) -> (r: Option<char>)
        ensures
            final(self).source() == old(self).source(),
            final(self).current_line_number == old(self).current_line_number,
            match r {
                None => {
                    &&& old(self).position() == old(self).text().len()
                    &&& final(self).position() == old(self).position()
                    &&& old(self).at_eol
                    &&& final(self).at_eol
                },
                Some(c) => {
                    &&& old(self).position() < old(self).text().len()
                    &&& c == old(self).text()[old(self).position()]
                    &&& final(self).position() == old(self).position() + 1
                    &&& final(self).at_eol ==> c == '\n'
                    &&& !final(self).at_eol ==> final(self).current_index >= 1
                    &&& !old(self).at_eol ==> {
                        &&& final(self).row_start() == old(self).row_start()
                        &&& final(self).current_line == old(self).current_line
                        &&& final(self).at_eol ==> final(self).current_index == old(
                            self).current_index
                        &&& !final(self).at_eol ==> final(self).current_index == old(
                            self).current_index + 1
                    }
                },
            },
    {
        proof {
            reveal(Lexer::source);
            use_type_invariant(&*self);
            self.lemma_cursor();
        }
        if self.at_eol {
            // The queue is taken out of the scanner while a line leaves it.
            let mut queue: VecDeque<String> = VecDeque::new();
            swap(&mut queue, &mut self.lines);
            let next = queue.pop_front();
            swap(&mut queue, &mut self.lines);
            let line = match next {
                Some(line) => chars_of(line.as_str()),
                None => {
                    return None;
                },
            };
            proof {
                use_type_invariant(&*self);
            }
            let ghost read = old(self).earlier@.push(old(self).current_line@);
            self.at_eol = false;
            self.current_index = 0;
            self.earlier = Ghost(read);
            self.current_line = line;
            proof {
                reveal(Lexer::source);
                assert(self.source() =~= old(self).source());
                lemma_line_in_source(self.source(), old(self).earlier@.len() as int);
            }
        }
        proof {
            use_type_invariant(&*self);
            self.lemma_cursor();
        }
        if self.current_index < self.current_line.len() {
            let ret = self.current_line[self.current_index];
            self.current_index += 1;
            Some(ret)
        } else {
            self.at_eol = true;
            Some('\n')
        }
    }

    /// Takes back the character that was read last, so that it is read again.
    ///
    /// The newline that ends a line is taken back without a move within the
    /// line. Any other character can be taken back only while the cursor has
    /// moved within the line.
    fn ungetc(&mut self)
        requires
            old(self).at_eol || old(self).current_index > 0,
        ensures
            final(self).source() == old(self).source(),
            final(self).current_line_number == old(self).current_line_number,
            final(self).position() == old(self).position() - 1,
            !final(self).at_eol,
            final(self).row_start() == old(self).row_start(),
            final(self).current_line == old(self).current_line,
            old(self).at_eol ==> final(self).current_index == old(self).current_index,
            !old(self).at_eol ==> final(self).current_index == old(self).current_index - 1,
    {
        proof {
            reveal(Lexer::source);
            use_type_invariant(&*self);
        }
        if self.at_eol {
            self.at_eol = false;
        } else {
            self.current_index -= 1;
        }
    }

    /// The characters of the current line between two indices are the
    /// characters of the text between the positions of those indices.
    proof fn lemma_lexeme(&self, start: int, end: int)
        requires
            self.well_formed(),
            0 <= start <= end <= self.current_line.len(),
        ensures
            self.current_line@.subrange(start, end) == self.text().subrange(
                self.row_start() + start,
                self.row_start() + end,
            ),
    {
        self.lemma_cursor();
        let row_start = self.row_start();
        let in_line = self.current_line@.subrange(start, end);
        let in_text = self.text().subrange(row_start + start, row_start + end);
        assert forall|i: int| 0 <= i < end - start implies in_line[i] == in_text[i] by {
            assert(self.text()[row_start + start + i] == self.current_line@[start + i]);
        }
        assert(in_line =~= in_text);
    }

    /// Counts one newline.
    fn count_line(&mut self)
        ensures
            final(self).source() == old(self).source(),
            final(self).position() == old(self).position(),
            final(self).row_start() == old(self).row_start(),
            final(self).current_line == old(self).current_line,
            final(self).current_index == old(self).current_index,
            final(self).at_eol == old(self).at_eol,
            final(self).line() == line_after(old(self).line(), 1),
    {
        proof {
            reveal(Lexer::source);
            use_type_invariant(&*self);
        }
        if self.current_line_number < i32::MAX {
            self.current_line_number += 1;
        }
    }

    /// Scans one token.
    ///
    /// The scan passes separators and comments, counts the newlines among
    /// them, and reads the one token that follows, or finds the error that
    /// stands in its place. At the end of the lines given so far it yields
    /// the end-of-file token, as often as it is asked. The token, or the
    /// error, carries the number of the line on which it stands. After an
    /// error the next scan begins behind the text that the error covers.
    pub fn get_token(&mut self) -> (r: Result<Token, LexicalError>)
        ensures
            final(self).source() == old(self).source(),
            0 <= old(self).position() <= final(self).position() <= old(self).text().len(),
            ({
                let outcome = next_token(old(self).text(), old(self).position(), old(self).line());
                &&& final(self).position() == outcome.end
                &&& final(self).line() == outcome.line
                &&& match r {
                    Ok(token) => {
                        &&& outcome.result == Ok::<TokenKind, LexicalErrorKind>(token.token_type@)
                        &&& token.line_number == outcome.line
                    },
                    Err(error) => {
                        &&& outcome.result == Err::<TokenKind, LexicalErrorKind>(error.kind)
                        &&& error.line == outcome.line
                    },
                }
            }),
    {
        let mut current_status = Status::Initial;
        let mut start_index: usize = 0;
        let ghost s = self.text();
        let ghost from = self.position();
        let ghost line0 = self.line();
        let ghost mut mark: int = 0;
        let ghost mut dot: int = 0;
        proof {
            use_type_invariant(&*self);
            self.lemma_cursor();
        }
        loop
            invariant
                self.source() == old(self).source(),
                s == old(self).text(),
                from == old(self).position(),
                line0 == old(self).line(),
                0 <= from <= self.position() <= s.len(),
                in_progress(
                    current_status,
                    s,
                    from,
                    line0,
                    self.position(),
                    self.line(),
                    mark,
                    dot,
                ),
                !(current_status is Initial) ==> !self.at_eol,
                !(current_status is Initial) && !(current_status is Comment) ==> {
                    &&& start_index <= self.current_index
                    &&& mark + (if current_status is String {
                        1int
                    } else {
                        0int
                    }) == self.row_start() + start_index
                },
            decreases s.len() - self.position(),
        {
            let ghost p = self.position();
            let opt_ch = self.getc();
            proof {
                use_type_invariant(&*self);
                self.lemma_cursor();
            }
            let ch = match opt_ch {
                None => {
                    return Ok(Token::new(TokenType::EndOfFile, self.current_line_number));
                },
                Some(ch) => ch,
            };
            match current_status {
                Status::Initial => {
                    if ch == '#' {
                        current_status = Status::Comment;
                    } else if digit(ch) {
                        start_index = self.current_index - 1;
                        proof {
                            mark = p;
                        }
                        current_status = Status::IntPart;
                    } else if word_start(ch) {
                        start_index = self.current_index - 1;
                        proof {
                            mark = p;
                        }
                        current_status = Status::AlNum;
                    } else if ch == '"' {
                        start_index = self.current_index;
                        proof {
                            mark = p;
                        }
                        current_status = Status::String;
                    } else if separator(ch) {
                        if ch == '\n' {
                            self.count_line();
                        }
                        current_status = Status::Initial;
                    } else if Lexer::is_operator_start(ch) {
                        start_index = self.current_index - 1;
                        proof {
                            mark = p;
                        }
                        current_status = Status::Operator;
                    } else {
                        return Err(
                            LexicalError {
                                kind: LexicalErrorKind::IllegalCharacter(ch),
                                line: self.current_line_number,
                            },
                        );
                    }
                },
                Status::Comment => {
                    if ch == '\n' {
                        self.count_line();
                        current_status = Status::Initial;
                    } else {
                        current_status = Status::Comment;
                    }
                },
                Status::IntPart => {
                    if digit(ch) {
                        current_status = Status::IntPart;
                    } else if ch == '.' {
                        proof {
                            dot = p;
                        }
                        current_status = Status::DecimalPoint;
                    } else {
                        self.ungetc();
                        proof {
                            use_type_invariant(&*self);
                            self.lemma_lexeme(start_index as int, self.current_index as int);
                            lemma_integer_literal(s, mark, p);
                        }
                        let vec_slice = slice_subrange(
                            self.current_line.as_slice(),
                            start_index,
                            self.current_index,
                        );
                        return match parse_decimal(vec_slice) {
                            Some(int_value) => {
                                let token_type = TokenType::IntValue(int_value);
                                Ok(Token::new(token_type, self.current_line_number))
                            },
                            None => Err(
                                LexicalError {
                                    kind: LexicalErrorKind::IntegerOutOfRange,
                                    line: self.current_line_number,
                                },
                            ),
                        };
                    }
                },
                Status::DecimalPoint => {
                    if digit(ch) {
                        current_status = Status::AfterDecimalPoint;
                    } else {
                        self.ungetc();
                        proof {
                            lemma_malformed_number(s, mark, dot);
                        }
                        return Err(
                            LexicalError {
                                kind: LexicalErrorKind::MalformedNumber(ch),
                                line: self.current_line_number,
                            },
                        );
                    }
                },
                Status::AfterDecimalPoint => {
                    if digit(ch) {
                        current_status = Status::AfterDecimalPoint;
                    } else {
                        self.ungetc();
                        proof {
                            use_type_invariant(&*self);
                            self.lemma_lexeme(start_index as int, self.current_index as int);
                            lemma_real_literal(s, mark, dot, p);
                        }
                        let vec_slice = slice_subrange(
                            self.current_line.as_slice(),
                            start_index,
                            self.current_index,
                        );
                        let text = string_from_chars(vec_slice);
                        return Ok(Token::new(TokenType::RealValue(text), self.current_line_number));
                    }
                },
                Status::AlNum => {
                    if word_start(ch) || digit(ch) {
                        current_status = Status::AlNum;
                    } else {
                        self.ungetc();
                        proof {
                            use_type_invariant(&*self);
                            self.lemma_lexeme(start_index as int, self.current_index as int);
                            lemma_word(s, mark, p);
                        }
                        let vec_slice = slice_subrange(
                            self.current_line.as_slice(),
                            start_index,
                            self.current_index,
                        );
                        let token_type = match Lexer::is_keyword(vec_slice) {
                            Some(keyword) => keyword,
                            None => TokenType::Identifier(string_from_chars(vec_slice)),
                        };
                        return Ok(Token::new(token_type, self.current_line_number));
                    }
                },
                Status::String => {
                    if ch == '"' {
                        proof {
                            self.lemma_lexeme(
                                start_index as int,
                                self.current_index as int - 1,
                            );
                            lemma_string_literal(s, mark, p);
                        }
                        let vec_slice = slice_subrange(
                            self.current_line.as_slice(),
                            start_index,
                            self.current_index - 1,
                        );
                        return match Lexer::convert_string_escape(vec_slice) {
                            Ok(text) => Ok(
                                Token::new(TokenType::StringValue(text), self.current_line_number),
                            ),
                            Err(kind) => Err(
                                LexicalError { kind, line: self.current_line_number },
                            ),
                        };
                    } else if ch == '\n' {
                        self.ungetc();
                        proof {
                            lemma_multiline_string(s, mark, p);
                        }
                        return Err(
                            LexicalError {
                                kind: LexicalErrorKind::MultilineString,
                                line: self.current_line_number,
                            },
                        );
                    } else {
                        current_status = Status::String;
                    }
                },
                Status::Operator => {
                    let longer = if self.at_eol {
                        proof {
                            if is_operator_prefix(s.subrange(mark, p + 1)) {
                                lemma_operator_prefix(s.subrange(mark, p + 1));
                                assert(s.subrange(mark, p + 1)[p - mark] == '\n');
                            }
                        }
                        false
                    } else {
                        proof {
                            self.lemma_lexeme(start_index as int, self.current_index as int);
                        }
                        Lexer::in_operator(
                            slice_subrange(
                                self.current_line.as_slice(),
                                start_index,
                                self.current_index,
                            ),
                        )
                    };
                    if longer {
                        current_status = Status::Operator;
                    } else {
                        self.ungetc();
                        proof {
                            use_type_invariant(&*self);
                            self.lemma_lexeme(start_index as int, self.current_index as int);
                        }
                        let vec_slice = slice_subrange(
                            self.current_line.as_slice(),
                            start_index,
                            self.current_index,
                        );
                        return match Lexer::get_operator(vec_slice) {
                            Some(token_type) => Ok(
                                Token::new(token_type, self.current_line_number),
                            ),
                            None => Err(
                                LexicalError {
                                    kind: LexicalErrorKind::IncompleteOperator,
                                    line: self.current_line_number,
                                },
                            ),
                        };
                    }
                },
            }
        }
    }

    /// The keyword that the characters spell, if they spell one.
    pub fn is_keyword(char_array: &[char]) -> (r: Option<TokenType>)
        ensures
            match r {
                Some(kind) => keyword_kind(char_array@) == Some(kind@),
                None => keyword_kind(char_array@) is None,
            },
    {
        let mut i: usize = 0;
        while i < KEYWORD_COUNT
            invariant
                i <= KEYWORD_COUNT,
                keyword_table().len() == KEYWORD_COUNT,
                keyword_kind(char_array@) == lookup(keyword_table(), char_array@, i as int),
            decreases KEYWORD_COUNT - i,
        {
            let (word, kind) = keyword_entry(i);
            if word_matches(char_array, word) {
                return Some(kind);
            }
            i += 1;
        }
        None
    }

    /// Whether some operator begins with the character.
    pub fn is_operator_start(ch: char) -> (r: bool)
        ensures
            r == is_operator_prefix(seq![ch]),
    {
        let one: [char; 1] = [ch];
        assert(one@ =~= seq![ch]);
        Lexer::in_operator(one.as_slice())
    }

    /// Whether some operator begins with the characters.
    pub fn in_operator(char_array: &[char]) -> (r: bool)
        ensures
            r == is_operator_prefix(char_array@),
    {
        let mut i: usize = 0;
        while i < OPERATOR_COUNT
            invariant
                i <= OPERATOR_COUNT,
                operator_table().len() == OPERATOR_COUNT,
                forall|j: int|
                    0 <= j < i ==> !char_array@.is_prefix_of(#[trigger] operator_table()[j].0),
            decreases OPERATOR_COUNT - i,
        {
            let (word, _) = operator_entry(i);
            if word_starts_with(word, char_array) {
                return true;
            }
            i += 1;
        }
        false
    }

    /// The operator that the characters spell, if they spell one.
    pub fn get_operator(char_array: &[char]) -> (r: Option<TokenType>)
        ensures
            match r {
                Some(kind) => operator_kind(char_array@) == Some(kind@),
                None => operator_kind(char_array@) is None,
            },
    {
        let mut i: usize = 0;
        while i < OPERATOR_COUNT
            invariant
                i <= OPERATOR_COUNT,
                operator_table().len() == OPERATOR_COUNT,
                operator_kind(char_array@) == lookup(operator_table(), char_array@, i as int),
            decreases OPERATOR_COUNT - i,
        {
            let (word, kind) = operator_entry(i);
            if word_matches(char_array, word) {
                return Some(kind);
            }
            i += 1;
        }
        None
    }

    /// The text that the body of a string literal stands for.
    ///
    /// A backslash and an `n` give a newline. A backslash before any other
    /// character is an error, and so is a backslash at the end of the body.
    pub fn convert_string_escape(src: &[char]) -> (r: Result<String, LexicalErrorKind>)
        ensures
            match r {
                Ok(text) => unescape(src@) == Ok::<Seq<char>, LexicalErrorKind>(text@),
                Err(kind) => unescape(src@) == Err::<Seq<char>, LexicalErrorKind>(kind),
            },
    {
        let mut dest = String::new();
        let mut escaping = false;
        let mut i: usize = 0;
        while i < src.len()
            invariant
                i <= src.len(),
                unescape(src@) == match unescape_from(src@, i as int, escaping) {
                    Ok(rest) => Ok::<Seq<char>, LexicalErrorKind>(dest@ + rest),
                    Err(kind) => Err(kind),
                },
            decreases src.len() - i,
        {
            let ch = src[i];
            let ghost before = dest@;
            if !escaping {
                if ch == '\\' {
                    escaping = true;
                } else {
                    dest.push(ch);
                    proof {
                        if let Ok(rest) = unescape_from(src@, i + 1, false) {
                            assert(before + (seq![ch] + rest) =~= dest@ + rest);
                        }
                    }
                }
            } else {
                if ch == 'n' {
                    dest.push('\n');
                    escaping = false;
                    proof {
                        if let Ok(rest) = unescape_from(src@, i + 1, false) {
                            assert(before + (seq!['\n'] + rest) =~= dest@ + rest);
                        }
                    }
                } else {
                    return Err(LexicalErrorKind::InvalidEscape(ch));
                }
            }
            i += 1;
        }
        if escaping {
            return Err(LexicalErrorKind::UnterminatedEscape);
        }
        assert(dest@ + Seq::<char>::empty() =~= dest@);
        Ok(dest)
    }
}

} // verus!
