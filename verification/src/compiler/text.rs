//! Text: strings as sequences of characters, and decimal numerals.

use vstd::prelude::*;

verus! {

/// `String::push` of the standard library: the string afterwards is the string
/// before with the one character added at its end.
pub assume_specification[ std::string::String::push ](s: &mut std::string::String, c: char)
    ensures
        final(s)@ == old(s)@.push(c),
;

/// The string made of the given characters, in their order.
pub fn string_from_chars(chars: &[char]) -> (text: String)
    ensures
        text@ == chars@,
{
    let mut text = String::new();
    let mut i: usize = 0;
    while i < chars.len()
        invariant
            i <= chars.len(),
            text@ == chars@.take(i as int),
        decreases chars.len() - i,
    {
        text.push(chars[i]);
        i += 1;
        assert(chars@.take(i as int) =~= chars@.take(i as int - 1).push(chars@[i as int - 1]));
    }
    assert(chars@.take(chars.len() as int) =~= chars@);
    text
}

/// The characters of a string, in their order.
pub fn chars_of(s: &str) -> (chars: Vec<char>)
    ensures
        chars@ == s@,
{
    broadcast use vstd::string::group_string_axioms;

    let mut chars: Vec<char> = Vec::new();
    for c in it: s.chars()
        invariant
            it.seq() == s@,
            chars@ == s@.take(it.index()),
    {
        chars.push(c);
        assert(s@.take(it.index() + 1) =~= s@.take(it.index()).push(c));
    }
    assert(s@.take(s@.len() as int) =~= s@);
    chars
}

/// Whether the characters spell exactly the word.
pub fn word_matches(chars: &[char], word: &str) -> (r: bool)
    ensures
        r == (chars@ == word@),
{
    broadcast use vstd::string::group_string_axioms;

    let mut i: usize = 0;
    for c in it: word.chars()
        invariant
            it.seq() == word@,
            i == it.index(),
            i <= chars.len(),
            chars@.take(i as int) == word@.take(i as int),
    {
        if i >= chars.len() {
            assert(chars@.len() < word@.len());
            return false;
        }
        if chars[i] != c {
            assert(chars@[i as int] != word@[i as int]);
            return false;
        }
        i += 1;
        assert(chars@.take(i as int) =~= chars@.take(i as int - 1).push(chars@[i as int - 1]));
        assert(word@.take(i as int) =~= word@.take(i as int - 1).push(word@[i as int - 1]));
    }
    assert(word@.take(word@.len() as int) =~= word@);
    if i == chars.len() {
        assert(chars@.take(i as int) =~= chars@);
        true
    } else {
        false
    }
}

/// Whether the word begins with the characters.
pub fn word_starts_with(word: &str, chars: &[char]) -> (r: bool)
    ensures
        r == chars@.is_prefix_of(word@),
{
    broadcast use vstd::string::group_string_axioms;

    let mut i: usize = 0;
    for c in it: word.chars()
        invariant
            it.seq() == word@,
            i <= it.index(),
            i <= chars.len(),
            i < chars.len() ==> i == it.index(),
            chars@.take(i as int) == word@.take(i as int),
    {
        if i < chars.len() {
            if chars[i] != c {
                proof {
                    if chars@.len() <= word@.len() {
                        assert(word@.subrange(0, chars@.len() as int)[i as int] == word@[i as int]);
                    }
                }
                return false;
            }
            i += 1;
            assert(chars@.take(i as int) =~= chars@.take(i as int - 1).push(chars@[i as int - 1]));
            assert(word@.take(i as int) =~= word@.take(i as int - 1).push(word@[i as int - 1]));
        }
    }
    if i == chars.len() {
        assert(chars@.take(i as int) =~= chars@);
        true
    } else {
        false
    }
}

/// Whether the character is one of the ten decimal digits.
pub open spec fn is_digit(c: char) -> bool {
    '0' <= c <= '9'
}

/// Whether every character of the sequence is a decimal digit.
pub open spec fn all_digits(digits: Seq<char>) -> bool {
    forall|i: int| 0 <= i < digits.len() ==> is_digit(#[trigger] digits[i])
}

/// The number a digit stands for.
pub open spec fn digit_value(c: char) -> int {
    c as int - '0' as int
}

/// The digit that stands for a number below ten.
pub open spec fn digit_char(d: int) -> char {
    (d + '0' as int) as char
}

/// The number that a sequence of digits denotes in base ten; zero for no digits.
pub open spec fn decimal_value(digits: Seq<char>) -> int
    decreases digits.len(),
{
    if digits.len() == 0 {
        0
    } else {
        10 * decimal_value(digits.drop_last()) + digit_value(digits.last())
    }
}

/// What a numeral denotes as a 32-bit signed integer: the value of one or more
/// digits, where it does not exceed the largest such integer.
pub open spec fn parse_int(digits: Seq<char>) -> Option<i32> {
    if digits.len() > 0 && all_digits(digits) && decimal_value(digits) <= i32::MAX {
        Some(decimal_value(digits) as i32)
    } else {
        None
    }
}

/// The numeral of a natural number: its digits in base ten, without leading zeros.
pub open spec fn decimal_text(n: nat) -> Seq<char>
    decreases n,
{
    if n < 10 {
        seq![digit_char(n as int)]
    } else {
        decimal_text(n / 10).push(digit_char((n % 10) as int))
    }
}

/// The numeral of an integer: a minus sign before the numeral of a negative one.
pub open spec fn int_text(v: int) -> Seq<char> {
    if v < 0 {
        seq!['-'] + decimal_text((-v) as nat)
    } else {
        decimal_text(v as nat)
    }
}

/// The value of digits is never negative.
pub proof fn lemma_decimal_value_nonnegative(digits: Seq<char>)
    requires
        all_digits(digits),
    ensures
        0 <= decimal_value(digits),
    decreases digits.len(),
{
    if digits.len() > 0 {
        assert(all_digits(digits.drop_last()));
        lemma_decimal_value_nonnegative(digits.drop_last());
        assert(is_digit(digits.last()));
    }
}

/// A beginning of a numeral denotes no more than the whole.
pub proof fn lemma_decimal_value_grows(digits: Seq<char>, i: int)
    requires
        all_digits(digits),
        0 <= i <= digits.len(),
    ensures
        0 <= decimal_value(digits.take(i)) <= decimal_value(digits),
    decreases digits.len() - i,
{
    assert(all_digits(digits.take(i)));
    lemma_decimal_value_nonnegative(digits.take(i));
    if i < digits.len() {
        lemma_decimal_value_grows(digits, i + 1);
        assert(digits.take(i + 1).drop_last() =~= digits.take(i));
        assert(is_digit(digits[i]));
        assert(digits.take(i + 1).last() == digits[i]);
    } else {
        assert(digits.take(i) =~= digits);
    }
}

/// Reading a numeral gives back the number it was written for.
pub proof fn lemma_decimal_text_value(n: nat)
    ensures
        decimal_text(n).len() > 0,
        all_digits(decimal_text(n)),
        decimal_value(decimal_text(n)) == n,
    decreases n,
{
    if n < 10 {
        let t = decimal_text(n);
        assert(t.drop_last().len() == 0);
        assert(decimal_value(t.drop_last()) == 0);
        assert(t.last() == digit_char(n as int));
        assert(digit_value(digit_char(n as int)) == n);
    } else {
        lemma_decimal_text_value(n / 10);
        let t = decimal_text(n);
        assert(t.drop_last() =~= decimal_text(n / 10));
        assert(t.last() == digit_char((n % 10) as int));
        assert(digit_value(digit_char((n % 10) as int)) == n % 10);
        assert forall|i: int| 0 <= i < t.len() implies is_digit(#[trigger] t[i]) by {
            if i < t.len() - 1 {
                assert(t[i] == decimal_text(n / 10)[i]);
            }
        }
    }
}

/// A numeral of an integer that fits is read back as that integer.
pub proof fn lemma_parse_int_of_decimal_text(n: nat)
    requires
        n <= i32::MAX,
    ensures
        parse_int(decimal_text(n)) == Some(n as i32),
{
    lemma_decimal_text_value(n);
}

/// Reads a numeral as a 32-bit signed integer.
///
/// The result is `None` where the characters are not one or more digits, and
/// where their value exceeds the largest 32-bit signed integer.
pub fn parse_decimal(digits: &[char]) -> (r: Option<i32>)
    ensures
        r == parse_int(digits@),
{
    if digits.len() == 0 {
        return None;
    }
    let mut value: i32 = 0;
    let mut i: usize = 0;
    while i < digits.len()
        invariant
            i <= digits.len(),
            all_digits(digits@.take(i as int)),
            value == decimal_value(digits@.take(i as int)),
            0 <= value,
        decreases digits.len() - i,
    {
        let c = digits[i];
        if !(c >= '0' && c <= '9') {
            assert(!is_digit(digits@[i as int]));
            return None;
        }
        let d: i32 = ((c as u32) - ('0' as u32)) as i32;
        proof {
            assert(digits@.take(i + 1).drop_last() =~= digits@.take(i as int));
            assert(digits@.take(i + 1).last() == c);
            assert(decimal_value(digits@.take(i + 1)) == 10 * value + d);
            assert forall|j: int| 0 <= j < i + 1 implies is_digit(
                #[trigger] digits@.take(i + 1)[j],
            ) by {
                if j < i {
                    assert(digits@.take(i as int)[j] == digits@[j]);
                }
            }
        }
        if value > (i32::MAX - d) / 10 {
            proof {
                if all_digits(digits@) {
                    lemma_decimal_value_grows(digits@, i + 1);
                }
            }
            return None;
        }
        value = value * 10 + d;
        i += 1;
    }
    assert(digits@.take(digits.len() as int) =~= digits@);
    Some(value)
}

/// The digit that stands for a number below ten.
fn char_of_digit(d: u8) -> (c: char)
    requires
        d <= 9,
    ensures
        c == digit_char(d as int),
{
    (d + 48u8) as char
}

/// Adds the numeral of a number to the end of a string.
fn push_decimal(text: &mut String, n: u32)
    ensures
        final(text)@ == old(text)@ + decimal_text(n as nat),
    decreases n,
{
    if n >= 10 {
        push_decimal(text, n / 10);
    }
    text.push(char_of_digit((n % 10) as u8));
    assert(final(text)@ =~= old(text)@ + decimal_text(n as nat));
}

/// The numeral of a 32-bit signed integer, as a string.
pub fn format_int(v: i32) -> (text: String)
    ensures
        text@ == int_text(v as int),
{
    let mut text = String::new();
    if v < 0 {
        let magnitude: i64 = -(v as i64);
        text.push('-');
        push_decimal(&mut text, magnitude as u32);
        assert(text@ =~= int_text(v as int));
    } else {
        push_decimal(&mut text, v as u32);
        assert(text@ =~= int_text(v as int));
    }
    text
}

} // verus!
