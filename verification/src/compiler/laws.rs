//! What holds of every scan: theorems about the lexical grammar.

use crate::compiler::grammar::{
    blank_end, char_at, is_operator_prefix, is_space, is_word_part, is_word_start, join_lines,
    keyword_kind, keyword_table, lemma_line_in_source, lemma_operator_prefix,
    lemma_run_end_is_maximal, lemma_source_length, lemma_word, line_after, line_start, lookup,
    member, newlines, next_token, operator_end, operator_kind, operator_table, run_end, scan_all,
    token_at, unescape, unescape_from, CharClass, Outcome,
};
use crate::compiler::text::{all_digits, is_digit, lemma_decimal_value_nonnegative};
use crate::compiler::token::{LexicalErrorKind, TokenKind};
use vstd::prelude::*;

verus! {

/// Blank text ends within the source, at its end or at a character that is
/// neither a separator nor the start of a comment.
pub proof fn lemma_blank_end(s: Seq<char>, from: int, in_comment: bool)
    requires
        0 <= from <= s.len(),
    ensures
        from <= blank_end(s, from, in_comment) <= s.len(),
        blank_end(s, from, in_comment) < s.len() ==> {
            &&& !is_space(s[blank_end(s, from, in_comment)])
            &&& s[blank_end(s, from, in_comment)] != '#'
        },
    decreases s.len() - from,
{
    if from < s.len() {
        if in_comment {
            lemma_blank_end(s, from + 1, s[from] != '\n');
        } else if is_space(s[from]) {
            lemma_blank_end(s, from + 1, false);
        } else if s[from] == '#' {
            lemma_blank_end(s, from + 1, true);
        }
    }
}

/// Separators are blank text: the blank text that begins with them ends where
/// the blank text after them ends.
pub proof fn lemma_blank_end_after_separators(s: Seq<char>, from: int, to: int)
    requires
        0 <= from <= to <= s.len(),
        forall|i: int| from <= i < to ==> is_space(#[trigger] s[i]),
    ensures
        blank_end(s, from, false) == blank_end(s, to, false),
    decreases to - from,
{
    if from < to {
        assert(is_space(s[from]));
        lemma_blank_end_after_separators(s, from + 1, to);
    }
}

/// A comment goes on as long as no newline is met.
pub proof fn lemma_blank_end_in_comment(s: Seq<char>, from: int, to: int)
    requires
        0 <= from <= to <= s.len(),
        forall|i: int| from <= i < to ==> #[trigger] s[i] != '\n',
    ensures
        blank_end(s, from, true) == blank_end(s, to, true),
    decreases to - from,
{
    if from < to {
        assert(s[from] != '\n');
        lemma_blank_end_in_comment(s, from + 1, to);
    }
}

/// Text without a newline counts no newline.
pub proof fn lemma_no_newlines(s: Seq<char>, from: int, to: int)
    requires
        0 <= from <= to <= s.len(),
        forall|i: int| from <= i < to ==> #[trigger] s[i] != '\n',
    ensures
        newlines(s, from, to) == 0,
    decreases to - from,
{
    if from < to {
        assert(s[to - 1] != '\n');
        lemma_no_newlines(s, from, to - 1);
    }
}

/// The newlines of two stretches of text that meet add up.
pub proof fn lemma_newlines_add(s: Seq<char>, from: int, mid: int, to: int)
    requires
        0 <= from <= mid <= to <= s.len(),
    ensures
        newlines(s, from, to) == newlines(s, from, mid) + newlines(s, mid, to),
    decreases to - mid,
{
    if mid < to {
        lemma_newlines_add(s, from, mid, to - 1);
    }
}

/// Counting newlines in two steps reaches the line that one step reaches.
pub proof fn lemma_line_after_twice(line: int, first: nat, second: nat)
    ensures
        line_after(line_after(line, first), second) == line_after(line, first + second),
{
}

/// An operator lexeme ends within the source, and operators begin with it.
pub proof fn lemma_operator_end(s: Seq<char>, at: int, end: int)
    requires
        0 <= at < end <= s.len(),
        is_operator_prefix(s.subrange(at, end)),
    ensures
        end <= operator_end(s, at, end) <= s.len(),
        is_operator_prefix(s.subrange(at, operator_end(s, at, end))),
    decreases s.len() - end,
{
    if end < s.len() && is_operator_prefix(s.subrange(at, end + 1)) {
        lemma_operator_end(s, at, end + 1);
    }
}

/// What stands at a position that begins no blank text ends after that
/// position and within the source, and holds no newline.
pub proof fn lemma_lexeme_extent(s: Seq<char>, at: int)
    requires
        0 <= at < s.len(),
        !is_space(s[at]),
    ensures
        at < token_at(s, at).end <= s.len(),
        forall|i: int| at <= i < token_at(s, at).end ==> #[trigger] s[i] != '\n',
{
    let c = s[at];
    let end = token_at(s, at).end;
    if is_digit(c) {
        lemma_run_end_is_maximal(s, at, CharClass::Digit);
        let point = run_end(s, at, CharClass::Digit);
        if char_at(s, point) == '.' {
            lemma_run_end_is_maximal(s, point + 1, CharClass::Digit);
        }
        assert forall|i: int| at <= i < end implies #[trigger] s[i] != '\n' by {
            if i != point {
                assert(member(CharClass::Digit, s[i]));
            }
        }
    } else if is_word_start(c) {
        lemma_run_end_is_maximal(s, at, CharClass::Word);
        assert forall|i: int| at <= i < end implies #[trigger] s[i] != '\n' by {
            assert(member(CharClass::Word, s[i]));
        }
    } else if c == '"' {
        lemma_run_end_is_maximal(s, at + 1, CharClass::Quoted);
        let close = run_end(s, at + 1, CharClass::Quoted);
        assert forall|i: int| at <= i < end implies #[trigger] s[i] != '\n' by {
            if at < i < close {
                assert(member(CharClass::Quoted, s[i]));
            }
        }
    } else if is_operator_prefix(seq![c]) {
        assert(s.subrange(at, at + 1) =~= seq![c]);
        lemma_operator_end(s, at, at + 1);
        let lexeme = s.subrange(at, end);
        lemma_operator_prefix(lexeme);
        assert forall|i: int| at <= i < end implies #[trigger] s[i] != '\n' by {
            assert(s[i] == lexeme[i - at]);
        }
    }
}

/// A body without a backslash stands for itself, from any position on.
proof fn lemma_unescape_plain_from(body: Seq<char>, from: int)
    requires
        0 <= from <= body.len(),
        forall|i: int| 0 <= i < body.len() ==> #[trigger] body[i] != '\\',
    ensures
        unescape_from(body, from, false) == Ok::<Seq<char>, LexicalErrorKind>(
            body.subrange(from, body.len() as int),
        ),
    decreases body.len() - from,
{
    if from < body.len() {
        lemma_unescape_plain_from(body, from + 1);
        assert(body[from] != '\\');
        assert(seq![body[from]] + body.subrange(from + 1, body.len() as int) =~= body.subrange(
            from,
            body.len() as int,
        ));
    } else {
        assert(body.subrange(from, body.len() as int) =~= Seq::<char>::empty());
    }
}

/// The body of a string literal without a backslash stands for itself.
pub proof fn lemma_unescape_plain(body: Seq<char>)
    requires
        forall|i: int| 0 <= i < body.len() ==> #[trigger] body[i] != '\\',
    ensures
        unescape(body) == Ok::<Seq<char>, LexicalErrorKind>(body),
{
    lemma_unescape_plain_from(body, 0);
    assert(body.subrange(0, body.len() as int) =~= body);
}

/// The shape of the text of a real literal: digits, one point, digits, with
/// at least one digit on either side of the point.
pub open spec fn is_real_text(text: Seq<char>) -> bool {
    exists|point: int|
        1 <= point <= text.len() - 2 && #[trigger] text[point] == '.' && forall|i: int|
            0 <= i < text.len() && i != point ==> is_digit(#[trigger] text[i])
}

/// The shape of a word: a letter or an underscore, then letters, underscores
/// and digits.
pub open spec fn is_word(text: Seq<char>) -> bool {
    &&& text.len() > 0
    &&& is_word_start(text[0])
    &&& forall|i: int| 0 <= i < text.len() ==> is_word_part(#[trigger] text[i])
}

/// What a token can be: never the end of the file, which only the end of the
/// source yields. An integer literal is not negative. A real literal holds
/// text of the shape of one. An identifier holds a word that spells no
/// keyword.
pub proof fn lemma_token_kinds(s: Seq<char>, at: int)
    requires
        0 <= at < s.len(),
    ensures
        match token_at(s, at).result {
            Ok(TokenKind::EndOfFile) => false,
            Ok(TokenKind::IntValue(value)) => 0 <= value,
            Ok(TokenKind::RealValue(text)) => is_real_text(text),
            Ok(TokenKind::Identifier(name)) => is_word(name) && keyword_kind(name) is None,
            _ => true,
        },
{
    let c = s[at];
    if is_digit(c) {
        lemma_run_end_is_maximal(s, at, CharClass::Digit);
        let point = run_end(s, at, CharClass::Digit);
        if char_at(s, point) == '.' {
            lemma_run_end_is_maximal(s, point + 1, CharClass::Digit);
            let end = run_end(s, point + 1, CharClass::Digit);
            if end > point + 1 {
                let text = s.subrange(at, end);
                assert(text[point - at] == '.');
                assert forall|i: int| 0 <= i < text.len() && i != point - at implies is_digit(
                    #[trigger] text[i],
                ) by {
                    assert(member(CharClass::Digit, s[at + i]));
                }
            }
        } else {
            let digits = s.subrange(at, point);
            if all_digits(digits) {
                lemma_decimal_value_nonnegative(digits);
            }
        }
    } else if is_word_start(c) {
        lemma_run_end_is_maximal(s, at, CharClass::Word);
        let end = run_end(s, at, CharClass::Word);
        let word = s.subrange(at, end);
        lemma_keywords(word);
        assert forall|i: int| 0 <= i < word.len() implies is_word_part(#[trigger] word[i]) by {
            assert(member(CharClass::Word, s[at + i]));
        }
    } else if c == '"' {
    } else if is_operator_prefix(seq![c]) {
        let end = operator_end(s, at, at + 1);
        lemma_operators(s.subrange(at, end));
    }
}

/// The end-of-file token means the end of the source: a scan yields it where
/// nothing but blank text is left, and only there.
pub proof fn lemma_end_of_file(s: Seq<char>, from: int, line: int)
    requires
        0 <= from <= s.len(),
    ensures
        next_token(s, from, line).is_end_of_file() <==> blank_end(s, from, false) == s.len(),
{
    lemma_blank_end(s, from, false);
    let at = blank_end(s, from, false);
    if at < s.len() {
        lemma_token_kinds(s, at);
    }
}

/// A scan ends within the source, at or after the position at which it began,
/// and after it where it yields anything but the end-of-file token.
pub proof fn lemma_scan_advances(s: Seq<char>, from: int, line: int)
    requires
        0 <= from <= s.len(),
    ensures
        from <= next_token(s, from, line).end <= s.len(),
        !next_token(s, from, line).is_end_of_file() ==> from < next_token(s, from, line).end,
{
    lemma_blank_end(s, from, false);
    let at = blank_end(s, from, false);
    if at < s.len() {
        lemma_lexeme_extent(s, at);
    }
}

/// At the end of the source a scan yields the end-of-file token and stays
/// where it is, on the line it has reached.
pub proof fn lemma_end_of_file_repeats(s: Seq<char>, line: int)
    ensures
        next_token(s, s.len() as int, line) == (Outcome {
            result: Ok(TokenKind::EndOfFile),
            end: s.len() as int,
            line: line_after(line, 0),
        }),
        line <= i32::MAX ==> line_after(line, 0) == line,
{
}

/// The line of a token: a scan that begins on line `line` yields a token, or
/// an error, on the line that the newlines before the token lead to. The
/// token itself holds no newline, so the same line is reached by the newlines
/// before the end of the token, and the next scan begins on it.
pub proof fn lemma_token_line(s: Seq<char>, from: int, line: int)
    requires
        0 <= from <= s.len(),
    ensures
        from <= blank_end(s, from, false) <= next_token(s, from, line).end <= s.len(),
        next_token(s, from, line).line == line_after(
            line,
            newlines(s, from, blank_end(s, from, false)),
        ),
        next_token(s, from, line).line == line_after(
            line,
            newlines(s, from, next_token(s, from, line).end),
        ),
{
    lemma_blank_end(s, from, false);
    let at = blank_end(s, from, false);
    let end = next_token(s, from, line).end;
    if at < s.len() {
        lemma_lexeme_extent(s, at);
        lemma_no_newlines(s, at, end);
        lemma_newlines_add(s, from, at, end);
    }
}

/// The outcome of the scan number `k`, counted from zero, in a row of scans
/// that begins at `from` on the line `line`: each scan begins where the one
/// before it ended.
pub open spec fn nth_outcome(s: Seq<char>, from: int, line: int, k: nat) -> Outcome
    decreases k,
{
    let first = next_token(s, from, line);
    if k == 0 {
        first
    } else {
        nth_outcome(s, first.end, first.line, (k - 1) as nat)
    }
}

/// The position at which the scan number `k` of such a row begins.
pub open spec fn nth_start(s: Seq<char>, from: int, line: int, k: nat) -> int
    decreases k,
{
    if k == 0 {
        from
    } else {
        let first = next_token(s, from, line);
        nth_start(s, first.end, first.line, (k - 1) as nat)
    }
}

/// The position of the first character of what the scan number `k` yields:
/// the end of the blank text at which that scan begins.
pub open spec fn nth_token_start(s: Seq<char>, from: int, line: int, k: nat) -> int {
    blank_end(s, nth_start(s, from, line, k), false)
}

/// Line attribution: in a row of scans, the token of every scan carries the
/// line of the row's start plus the number of newlines between that start and
/// the token, as far as 32 bits can count. From the start of a source, on
/// line one, a token after `n` newlines is on line `n + 1`. The token holds no
/// newline, so its last character stands on the same line.
pub proof fn lemma_line_attribution(s: Seq<char>, from: int, line: int, k: nat)
    requires
        0 <= from <= s.len(),
    ensures
        from <= nth_start(s, from, line, k) <= nth_token_start(s, from, line, k) <= nth_outcome(
            s,
            from,
            line,
            k,
        ).end <= s.len(),
        nth_outcome(s, from, line, k).line == line_after(
            line,
            newlines(s, from, nth_token_start(s, from, line, k)),
        ),
        nth_outcome(s, from, line, k).line == line_after(
            line,
            newlines(s, from, nth_outcome(s, from, line, k).end),
        ),
    decreases k,
{
    lemma_token_line(s, from, line);
    if k > 0 {
        let first = next_token(s, from, line);
        lemma_line_attribution(s, first.end, first.line, (k - 1) as nat);
        let at = nth_token_start(s, from, line, k);
        let end = nth_outcome(s, from, line, k).end;
        lemma_newlines_add(s, from, first.end, at);
        lemma_newlines_add(s, from, first.end, end);
        lemma_line_after_twice(line, newlines(s, from, first.end), newlines(s, first.end, at));
        lemma_line_after_twice(line, newlines(s, from, first.end), newlines(s, first.end, end));
    }
}

/// The tokens of a whole scan are what its scans yield one after the other:
/// the token number `k` is the token of the scan number `k`, on its line.
pub proof fn lemma_scan_all_token(s: Seq<char>, from: int, line: int, k: nat)
    requires
        k < scan_all(s, from, line).tokens.len(),
    ensures
        nth_outcome(s, from, line, k).result == Ok::<TokenKind, LexicalErrorKind>(
            scan_all(s, from, line).tokens[k as int].kind,
        ),
        nth_outcome(s, from, line, k).line == scan_all(s, from, line).tokens[k as int].line,
    decreases k,
{
    let first = next_token(s, from, line);
    if k > 0 {
        let rest = scan_all(s, first.end, first.line);
        assert(scan_all(s, from, line).tokens[k as int] == rest.tokens[k - 1]);
        lemma_scan_all_token(s, first.end, first.line, (k - 1) as nat);
    }
}

/// Line attribution for a whole scan: every token of a source scanned from
/// its start carries one plus the number of newlines before the token.
pub proof fn lemma_token_lines(s: Seq<char>, k: nat)
    requires
        k < scan_all(s, 0, 1).tokens.len(),
    ensures
        0 <= nth_token_start(s, 0, 1, k) <= s.len(),
        scan_all(s, 0, 1).tokens[k as int].line == line_after(
            1,
            newlines(s, 0, nth_token_start(s, 0, 1, k)),
        ),
{
    lemma_scan_all_token(s, 0, 1, k);
    lemma_line_attribution(s, 0, 1, k);
}

/// A line that holds nothing to scan: separators, and then perhaps a comment
/// that runs to the end of the line.
pub open spec fn is_blank_line(line: Seq<char>) -> bool {
    exists|k: int|
        0 <= k <= line.len() && #[trigger] is_blank_up_to(line, k) && (k == line.len() || (line[k]
            == '#' && forall|i: int| k < i < line.len() ==> #[trigger] line[i] != '\n'))
}

/// Whether a line holds only separators before the index `k`.
pub open spec fn is_blank_up_to(line: Seq<char>, k: int) -> bool {
    forall|i: int| 0 <= i < k ==> is_space(#[trigger] line[i])
}

/// From the start of a blank line the blank text reaches the start of the
/// next line.
proof fn lemma_blank_line(lines: Seq<Seq<char>>, row: int)
    requires
        0 <= row < lines.len(),
        is_blank_line(lines[row]),
    ensures
        blank_end(join_lines(lines), line_start(lines, row), false) == blank_end(
            join_lines(lines),
            line_start(lines, row + 1),
            false,
        ),
{
    let s = join_lines(lines);
    let line = lines[row];
    let start = line_start(lines, row);
    let next = line_start(lines, row + 1);
    lemma_line_in_source(lines, row);
    let k = choose|k: int|
        0 <= k <= line.len() && #[trigger] is_blank_up_to(line, k) && (k == line.len() || (line[k]
            == '#' && forall|i: int| k < i < line.len() ==> #[trigger] line[i] != '\n'));
    assert forall|i: int| start <= i < start + k implies is_space(#[trigger] s[i]) by {
        assert(s[i] == line[i - start]);
    }
    lemma_blank_end_after_separators(s, start, start + k);
    if k == line.len() {
        assert(is_space(s[start + k]));
    } else {
        assert(s[start + k] == line[k]);
        assert forall|i: int| start + k + 1 <= i < next - 1 implies #[trigger] s[i] != '\n' by {
            assert(s[i] == line[i - start]);
        }
        lemma_blank_end_in_comment(s, start + k + 1, next - 1);
    }
}

/// From the start of a line on, a source whose remaining lines are blank is
/// blank up to its end.
proof fn lemma_blank_lines(lines: Seq<Seq<char>>, row: int)
    requires
        0 <= row <= lines.len(),
        forall|r: int| row <= r < lines.len() ==> is_blank_line(#[trigger] lines[r]),
    ensures
        0 <= line_start(lines, row) <= join_lines(lines).len(),
        blank_end(join_lines(lines), line_start(lines, row), false) == join_lines(lines).len(),
    decreases lines.len() - row,
{
    lemma_source_length(lines);
    if row < lines.len() {
        lemma_line_in_source(lines, row);
        lemma_blank_line(lines, row);
        lemma_blank_lines(lines, row + 1);
    }
}

/// A source made of separators and comments alone holds no token: its first
/// scan yields the end-of-file token and ends at the end of the source, where
/// every later scan yields that token again.
pub proof fn lemma_blank_source(lines: Seq<Seq<char>>, line: int)
    requires
        forall|r: int| 0 <= r < lines.len() ==> is_blank_line(#[trigger] lines[r]),
    ensures
        next_token(join_lines(lines), 0, line).is_end_of_file(),
        next_token(join_lines(lines), 0, line).end == join_lines(lines).len(),
        next_token(
            join_lines(lines),
            join_lines(lines).len() as int,
            next_token(join_lines(lines), 0, line).line,
        ).is_end_of_file(),
        scan_all(join_lines(lines), 0, line).fault is None,
        scan_all(join_lines(lines), 0, line).tokens.len() == 1,
        scan_all(join_lines(lines), 0, line).tokens[0].kind == TokenKind::EndOfFile,
{
    lemma_blank_lines(lines, 0);
    lemma_source_length(lines);
}

/// A text whose lines are all ended: it is empty or ends in a newline.
pub open spec fn is_terminated(s: Seq<char>) -> bool {
    s.len() == 0 || s.last() == '\n'
}

/// The text of a source is terminated, and one more line adds its characters
/// and a newline to the text.
pub proof fn lemma_join_lines_more(lines: Seq<Seq<char>>, line: Seq<char>)
    ensures
        is_terminated(join_lines(lines)),
        join_lines(lines.push(line)) == join_lines(lines) + line + seq!['\n'],
{
    assert(lines.push(line).drop_last() =~= lines);
}

/// Blank text ends in a longer text where it ends in the shorter one, unless
/// it reaches the end of the shorter one: then it goes on from there.
proof fn lemma_blank_end_longer(s: Seq<char>, more: Seq<char>, from: int, in_comment: bool)
    requires
        is_terminated(s),
        0 <= from <= s.len(),
        from == s.len() ==> !in_comment,
    ensures
        blank_end(s, from, in_comment) <= s.len(),
        blank_end(s, from, in_comment) < s.len() ==> blank_end(s + more, from, in_comment)
            == blank_end(s, from, in_comment),
        blank_end(s, from, in_comment) == s.len() ==> blank_end(s + more, from, in_comment)
            == blank_end(s + more, s.len() as int, false),
    decreases s.len() - from,
{
    if from < s.len() {
        assert((s + more)[from] == s[from]);
        if in_comment {
            lemma_blank_end_longer(s, more, from + 1, s[from] != '\n');
        } else if is_space(s[from]) {
            lemma_blank_end_longer(s, more, from + 1, false);
        } else if s[from] == '#' {
            lemma_blank_end_longer(s, more, from + 1, true);
        }
    }
}

/// The newlines of a stretch of text are the same in a longer text.
proof fn lemma_newlines_longer(s: Seq<char>, more: Seq<char>, from: int, to: int)
    requires
        0 <= from <= to <= s.len(),
    ensures
        newlines(s + more, from, to) == newlines(s, from, to),
    decreases to - from,
{
    if from < to {
        assert((s + more)[to - 1] == s[to - 1]);
        lemma_newlines_longer(s, more, from, to - 1);
    }
}

/// A run in a terminated text ends before the end of the text, and at the
/// same position in a longer text.
proof fn lemma_run_end_longer(s: Seq<char>, more: Seq<char>, from: int, class: CharClass)
    requires
        is_terminated(s),
        0 <= from < s.len(),
    ensures
        from <= run_end(s, from, class) < s.len(),
        run_end(s + more, from, class) == run_end(s, from, class),
    decreases s.len() - from,
{
    assert((s + more)[from] == s[from]);
    if member(class, s[from]) {
        lemma_run_end_longer(s, more, from + 1, class);
    }
}

/// An operator lexeme in a terminated text ends before the end of the text,
/// and at the same position in a longer text.
proof fn lemma_operator_end_longer(s: Seq<char>, more: Seq<char>, at: int, end: int)
    requires
        is_terminated(s),
        0 <= at < end < s.len(),
    ensures
        end <= operator_end(s, at, end) < s.len(),
        operator_end(s + more, at, end) == operator_end(s, at, end),
    decreases s.len() - end,
{
    assert((s + more).subrange(at, end + 1) =~= s.subrange(at, end + 1));
    if is_operator_prefix(s.subrange(at, end + 1)) {
        lemma_operator_prefix(s.subrange(at, end + 1));
        assert(s.subrange(at, end + 1)[end - at] == s[end]);
        lemma_operator_end_longer(s, more, at, end + 1);
    }
}

/// What stands at a position of a terminated text stands there in a longer
/// text as well: no lexeme reaches past the end of a line.
proof fn lemma_token_at_longer(s: Seq<char>, more: Seq<char>, at: int)
    requires
        is_terminated(s),
        0 <= at < s.len(),
        !is_space(s[at]),
    ensures
        token_at(s + more, at) == token_at(s, at),
{
    let long = s + more;
    let c = s[at];
    assert(long[at] == c);
    if is_digit(c) {
        lemma_run_end_longer(s, more, at, CharClass::Digit);
        let point = run_end(s, at, CharClass::Digit);
        assert(long[point] == s[point]);
        if s[point] == '.' {
            lemma_run_end_longer(s, more, point + 1, CharClass::Digit);
            let end = run_end(s, point + 1, CharClass::Digit);
            assert(long[end] == s[end]);
            assert(long.subrange(at, end) =~= s.subrange(at, end));
        } else {
            assert(long.subrange(at, point) =~= s.subrange(at, point));
        }
    } else if is_word_start(c) {
        lemma_run_end_longer(s, more, at, CharClass::Word);
        let end = run_end(s, at, CharClass::Word);
        assert(long.subrange(at, end) =~= s.subrange(at, end));
    } else if c == '"' {
        lemma_run_end_longer(s, more, at + 1, CharClass::Quoted);
        let close = run_end(s, at + 1, CharClass::Quoted);
        assert(long[close] == s[close]);
        assert(long.subrange(at + 1, close) =~= s.subrange(at + 1, close));
    } else if is_operator_prefix(seq![c]) {
        lemma_operator_prefix(seq![c]);
        assert(seq![c][0] == c);
        lemma_operator_end_longer(s, more, at, at + 1);
        let end = operator_end(s, at, at + 1);
        assert(long.subrange(at, end) =~= s.subrange(at, end));
    }
}

/// A scan does not depend on lines that are given later. In a source with
/// more lines a scan yields what it yields in the source as it is, as long as
/// that is not the end-of-file token; where it is, the scan goes on from the
/// end of the shorter source, on the line reached there.
pub proof fn lemma_scan_of_longer_source(s: Seq<char>, more: Seq<char>, from: int, line: int)
    requires
        is_terminated(s),
        0 <= from <= s.len(),
    ensures
        !next_token(s, from, line).is_end_of_file() ==> next_token(s + more, from, line)
            == next_token(s, from, line),
        next_token(s, from, line).is_end_of_file() ==> next_token(s + more, from, line)
            == next_token(s + more, s.len() as int, next_token(s, from, line).line),
{
    let long = s + more;
    lemma_end_of_file(s, from, line);
    lemma_blank_end(s, from, false);
    lemma_blank_end_longer(s, more, from, false);
    let at = blank_end(s, from, false);
    lemma_newlines_longer(s, more, from, at);
    if at < s.len() {
        lemma_token_at_longer(s, more, at);
    } else {
        lemma_blank_end(long, s.len() as int, false);
        let reached = blank_end(long, s.len() as int, false);
        lemma_newlines_add(long, from, s.len() as int, reached);
        lemma_line_after_twice(
            line,
            newlines(long, from, s.len() as int),
            newlines(long, s.len() as int, reached),
        );
    }
}

/// What a table gives for a word is the kind of an entry with that spelling.
pub proof fn lemma_lookup(table: Seq<(Seq<char>, TokenKind)>, word: Seq<char>, from: int)
    requires
        0 <= from,
    ensures
        match lookup(table, word, from) {
            Some(kind) => exists|i: int|
                from <= i < table.len() && (#[trigger] table[i]).0 == word && table[i].1 == kind,
            None => forall|i: int| from <= i < table.len() ==> (#[trigger] table[i]).0 != word,
        },
    decreases table.len() - from,
{
    if from < table.len() && table[from].0 != word {
        lemma_lookup(table, word, from + 1);
    }
}

/// The length and the first letter of each keyword, by which the keywords
/// differ from one another.
proof fn lemma_keyword_spellings()
    ensures
        keyword_table().len() == 13,
        keyword_table()[0].0.len() == 3 && keyword_table()[0].0[0] == 'v',
        keyword_table()[1].0.len() == 7 && keyword_table()[1].0[0] == 'b',
        keyword_table()[2].0.len() == 3 && keyword_table()[2].0[0] == 'i',
        keyword_table()[3].0.len() == 4 && keyword_table()[3].0[0] == 'r',
        keyword_table()[4].0.len() == 6 && keyword_table()[4].0[0] == 's',
        keyword_table()[5].0.len() == 8 && keyword_table()[5].0[0] == 'f',
        keyword_table()[6].0.len() == 4 && keyword_table()[6].0[0] == 't',
        keyword_table()[7].0.len() == 5 && keyword_table()[7].0[0] == 'f',
        keyword_table()[8].0.len() == 2 && keyword_table()[8].0[0] == 'i',
        keyword_table()[9].0.len() == 5 && keyword_table()[9].0[0] == 'e',
        keyword_table()[10].0.len() == 4 && keyword_table()[10].0[0] == 'e',
        keyword_table()[11].0.len() == 5 && keyword_table()[11].0[0] == 'w',
        keyword_table()[12].0.len() == 6 && keyword_table()[12].0[0] == 'r',
{
    reveal_strlit("var");
    reveal_strlit("boolean");
    reveal_strlit("int");
    reveal_strlit("real");
    reveal_strlit("string");
    reveal_strlit("function");
    reveal_strlit("true");
    reveal_strlit("false");
    reveal_strlit("if");
    reveal_strlit("elsif");
    reveal_strlit("else");
    reveal_strlit("while");
    reveal_strlit("return");
}

/// The keywords are told apart by their spelling: a word that is the spelling
/// of a keyword denotes that keyword, and what a word denotes is a keyword,
/// never an identifier.
pub proof fn lemma_keywords(word: Seq<char>)
    ensures
        keyword_kind(word) matches Some(kind) ==> kind.is_keyword(),
        forall|i: int|
            0 <= i < keyword_table().len() && (#[trigger] keyword_table()[i]).0 == word
                ==> keyword_kind(word) == Some(keyword_table()[i].1),
{
    lemma_keyword_spellings();
    lemma_lookup(keyword_table(), word, 0);
    let table = keyword_table();
    assert forall|i: int| 0 <= i < table.len() && (#[trigger] table[i]).0
        == word implies keyword_kind(word) == Some(table[i].1) by {
        let found = choose|j: int|
            0 <= j < table.len() && (#[trigger] table[j]).0 == word && Some(table[j].1)
                == keyword_kind(word);
        assert(table[found].0 == table[i].0);
        assert(found == i);
    }
}

/// The length and the first character of each operator, by which the
/// operators differ from one another.
proof fn lemma_operator_spellings_differ()
    ensures
        operator_table().len() == 21,
        operator_table()[0].0.len() == 1 && operator_table()[0].0[0] == '+',
        operator_table()[1].0.len() == 1 && operator_table()[1].0[0] == '-',
        operator_table()[2].0.len() == 1 && operator_table()[2].0[0] == '*',
        operator_table()[3].0.len() == 1 && operator_table()[3].0[0] == '/',
        operator_table()[4].0.len() == 1 && operator_table()[4].0[0] == '{',
        operator_table()[5].0.len() == 1 && operator_table()[5].0[0] == '}',
        operator_table()[6].0.len() == 1 && operator_table()[6].0[0] == '(',
        operator_table()[7].0.len() == 1 && operator_table()[7].0[0] == ')',
        operator_table()[8].0.len() == 1 && operator_table()[8].0[0] == '=',
        operator_table()[9].0.len() == 2 && operator_table()[9].0[0] == '!',
        operator_table()[10].0.len() == 2 && operator_table()[10].0[0] == ':',
        operator_table()[11].0.len() == 1 && operator_table()[11].0[0] == '>',
        operator_table()[12].0.len() == 2 && operator_table()[12].0[0] == '>',
        operator_table()[13].0.len() == 1 && operator_table()[13].0[0] == '<',
        operator_table()[14].0.len() == 2 && operator_table()[14].0[0] == '<',
        operator_table()[15].0.len() == 2 && operator_table()[15].0[0] == '&',
        operator_table()[16].0.len() == 2 && operator_table()[16].0[0] == '|',
        operator_table()[17].0.len() == 2 && operator_table()[17].0[0] == '+',
        operator_table()[18].0.len() == 2 && operator_table()[18].0[0] == '-',
        operator_table()[19].0.len() == 1 && operator_table()[19].0[0] == ',',
        operator_table()[20].0.len() == 1 && operator_table()[20].0[0] == ';',
{
    reveal_strlit("+");
    reveal_strlit("-");
    reveal_strlit("*");
    reveal_strlit("/");
    reveal_strlit("{");
    reveal_strlit("}");
    reveal_strlit("(");
    reveal_strlit(")");
    reveal_strlit("=");
    reveal_strlit("!=");
    reveal_strlit(":=");
    reveal_strlit(">");
    reveal_strlit(">=");
    reveal_strlit("<");
    reveal_strlit("<=");
    reveal_strlit("&&");
    reveal_strlit("||");
    reveal_strlit("++");
    reveal_strlit("--");
    reveal_strlit(",");
    reveal_strlit(";");
}

/// The operators are told apart by their spelling: a lexeme that is the
/// spelling of an operator denotes that operator, and what a lexeme denotes
/// is an operator.
pub proof fn lemma_operators(lexeme: Seq<char>)
    ensures
        operator_kind(lexeme) matches Some(kind) ==> kind.is_operator(),
        forall|i: int|
            0 <= i < operator_table().len() && (#[trigger] operator_table()[i]).0 == lexeme
                ==> operator_kind(lexeme) == Some(operator_table()[i].1),
{
    lemma_operator_spellings_differ();
    lemma_lookup(operator_table(), lexeme, 0);
    let table = operator_table();
    assert forall|i: int| 0 <= i < table.len() && (#[trigger] table[i]).0
        == lexeme implies operator_kind(lexeme) == Some(table[i].1) by {
        let found = choose|j: int|
            0 <= j < table.len() && (#[trigger] table[j]).0 == lexeme && Some(table[j].1)
                == operator_kind(lexeme);
        assert(table[found].0 == table[i].0);
        assert(found == i);
    }
}

/// A word that is no keyword is an identifier whose name is the word, letter
/// for letter; a word that is a keyword is that keyword.
pub proof fn lemma_word_is_keyword_or_identifier(s: Seq<char>, at: int, end: int)
    requires
        0 <= at < end <= s.len(),
        is_word_start(s[at]),
        forall|i: int| at <= i < end ==> is_word_part(#[trigger] s[i]),
        !is_word_part(char_at(s, end)),
    ensures
        token_at(s, at).end == end,
        forall|i: int|
            0 <= i < keyword_table().len() && (#[trigger] keyword_table()[i]).0 == s.subrange(
                at,
                end,
            ) ==> token_at(s, at).result == Ok::<TokenKind, LexicalErrorKind>(keyword_table()[i].1),
        (forall|i: int|
            0 <= i < keyword_table().len() ==> (#[trigger] keyword_table()[i]).0 != s.subrange(
                at,
                end,
            )) ==> token_at(s, at).result == Ok::<TokenKind, LexicalErrorKind>(
            TokenKind::Identifier(s.subrange(at, end)),
        ),
{
    let word = s.subrange(at, end);
    lemma_word(s, at, end);
    lemma_keywords(word);
    lemma_lookup(keyword_table(), word, 0);
}

} // verus!
