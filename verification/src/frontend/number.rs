use vstd::prelude::*;
use crate::frontend::lexer::{chars_of, is_digit, is_digit_char};

verus! {

// ---------------------------------------------------------------------------
// Decimal numerals
// ---------------------------------------------------------------------------

/// The value of a decimal digit.
pub open spec fn digit_value(c: char) -> int {
    c as int - '0' as int
}

/// The digit that stands for a value below ten.
pub open spec fn digit_of(d: int) -> char {
    ('0' as int + d) as char
}

/// Every character of the text is a decimal digit.
pub open spec fn all_digits(text: Seq<char>) -> bool {
    forall|i: int| 0 <= i < text.len() ==> is_digit_char(#[trigger] text[i])
}

/// The number that a sequence of decimal digits writes; 0 for no digits.
pub open spec fn decimal_value(digits: Seq<char>) -> int
    decreases digits.len(),
{
    if digits.len() == 0 {
        0
    } else {
        10 * decimal_value(digits.drop_last()) + digit_value(digits.last())
    }
}

/// The shortest decimal numeral of a natural number.
pub open spec fn decimal_text(n: nat) -> Seq<char>
    decreases n,
{
    if n < 10 {
        seq![digit_of(n as int)]
    } else {
        decimal_text(n / 10).push(digit_of((n % 10) as int))
    }
}

/// A plus or a minus sign.
pub open spec fn is_sign(c: char) -> bool {
    c == '+' || c == '-'
}

/// The text without a leading sign.
pub open spec fn unsigned_part(text: Seq<char>) -> Seq<char> {
    if text.len() > 0 && is_sign(text[0]) {
        text.skip(1)
    } else {
        text
    }
}

/// The integer that a text writes: an optional sign and then one or more
/// decimal digits, nothing else.
pub open spec fn integer_value(text: Seq<char>) -> Option<int> {
    let digits = unsigned_part(text);
    if digits.len() == 0 || !all_digits(digits) {
        None
    } else if text[0] == '-' {
        Some(-decimal_value(digits))
    } else {
        Some(decimal_value(digits))
    }
}

/// The 32-bit signed integer that a text writes, if it writes an integer
/// and that integer is in range.
pub open spec fn i32_value(text: Seq<char>) -> Option<i32> {
    match integer_value(text) {
        Some(v) => if i32::MIN <= v <= i32::MAX {
            Some(v as i32)
        } else {
            None
        },
        None => None,
    }
}

/// A numeral does not write a negative number.
pub proof fn lemma_decimal_value_nonnegative(digits: Seq<char>)
    requires
        all_digits(digits),
    ensures
        0 <= decimal_value(digits),
    decreases digits.len(),
{
    if digits.len() > 0 {
        lemma_decimal_value_nonnegative(digits.drop_last());
    }
}

/// A numeral is worth at least as much as any of its prefixes.
pub proof fn lemma_decimal_value_prefix(digits: Seq<char>, k: int)
    requires
        all_digits(digits),
        0 <= k <= digits.len(),
    ensures
        0 <= decimal_value(digits.take(k)) <= decimal_value(digits),
    decreases digits.len(),
{
    if k == digits.len() {
        assert(digits.take(k) =~= digits);
        lemma_decimal_value_nonnegative(digits);
    } else {
        lemma_decimal_value_prefix(digits.drop_last(), k);
        assert(digits.drop_last().take(k) =~= digits.take(k));
    }
}

/// Reads a 32-bit signed integer: an optional sign, then decimal digits.
pub fn parse_i32(text: &str) -> (value: Option<i32>)
    ensures
        value == i32_value(text@),
{
    let chars = chars_of(text);
    let n = chars.len();
    if n == 0 {
        return None;
    }
    let negative = chars[0] == '-';
    let start: usize = if chars[0] == '+' || chars[0] == '-' {
        1
    } else {
        0
    };
    if start == n {
        return None;
    }
    let ghost digits = unsigned_part(text@);
    assert(digits =~= chars@.subrange(start as int, n as int));
    let mut magnitude: i64 = 0;
    let mut i: usize = start;
    assert(digits.take(0) =~= Seq::<char>::empty());
    while i < n
        invariant
            start <= i <= n,
            n == chars.len(),
            digits == chars@.subrange(start as int, n as int),
            digits == unsigned_part(text@),
            all_digits(digits.take(i - start)),
            magnitude == decimal_value(digits.take(i - start)),
            0 <= magnitude <= 2147483648,
        decreases n - i,
    {
        let c = chars[i];
        if !is_digit(c) {
            assert(!is_digit_char(digits[i - start]));
            return None;
        }
        let d: i64 = (c as u32 - '0' as u32) as i64;
        assert(digits.take(i - start + 1).drop_last() =~= digits.take(i - start));
        magnitude = magnitude * 10 + d;
        i = i + 1;
        assert(all_digits(digits.take(i - start)));
        if magnitude > 2147483648 {
            proof {
                if all_digits(digits) {
                    lemma_decimal_value_prefix(digits, i - start);
                }
            }
            return None;
        }
    }
    assert(digits.take(n - start) =~= digits);
    if negative {
        Some((-magnitude) as i32)
    } else if magnitude <= 2147483647 {
        Some(magnitude as i32)
    } else {
        None
    }
}

/// Appends the decimal numeral of `n` to `text`.
pub fn push_decimal(text: &mut String, n: u32)
    ensures
        final(text)@ == old(text)@ + decimal_text(n as nat),
    decreases n,
{
    if n >= 10 {
        push_decimal(text, n / 10);
    }
    let d = (n % 10) as u8;
    let c = (48u8 + d) as char;
    crate::frontend::lexer::push_char(text, c);
    assert(final(text)@ =~= old(text)@ + decimal_text(n as nat));
}

// ---------------------------------------------------------------------------
// The syntax of floating-point literals
// ---------------------------------------------------------------------------

/// The number of decimal digits that follow one another in `text` from
/// index `from` on.
pub open spec fn digit_run(text: Seq<char>, from: int) -> int
    decreases text.len() - from,
{
    if 0 <= from < text.len() && is_digit_char(text[from]) {
        1 + digit_run(text, from + 1)
    } else {
        0
    }
}

/// `c` is the given letter, in lower or upper case.
pub open spec fn is_letter(c: char, lower: char, upper: char) -> bool {
    c == lower || c == upper
}

/// One of the words `inf`, `infinity` and `nan`, in any mix of cases.
pub open spec fn is_special_float(body: Seq<char>) -> bool {
    ||| {
        &&& body.len() == 3
        &&& is_letter(body[0], 'i', 'I')
        &&& is_letter(body[1], 'n', 'N')
        &&& is_letter(body[2], 'f', 'F')
    }
    ||| {
        &&& body.len() == 3
        &&& is_letter(body[0], 'n', 'N')
        &&& is_letter(body[1], 'a', 'A')
        &&& is_letter(body[2], 'n', 'N')
    }
    ||| {
        &&& body.len() == 8
        &&& is_letter(body[0], 'i', 'I')
        &&& is_letter(body[1], 'n', 'N')
        &&& is_letter(body[2], 'f', 'F')
        &&& is_letter(body[3], 'i', 'I')
        &&& is_letter(body[4], 'n', 'N')
        &&& is_letter(body[5], 'i', 'I')
        &&& is_letter(body[6], 't', 'T')
        &&& is_letter(body[7], 'y', 'Y')
    }
}

/// From index `at` to its end, `body` is an exponent: the letter `e`, an
/// optional sign and one or more digits.
pub open spec fn is_exponent(body: Seq<char>, at: int) -> bool {
    let digits = if at + 1 < body.len() && is_sign(body[at + 1]) {
        at + 2
    } else {
        at + 1
    };
    &&& 0 <= at < body.len()
    &&& is_letter(body[at], 'e', 'E')
    &&& digit_run(body, digits) > 0
    &&& digits + digit_run(body, digits) == body.len()
}

/// A decimal number: digits with at most one dot among them, at least one
/// digit before or after the dot, and an optional exponent.
pub open spec fn is_decimal_float(body: Seq<char>) -> bool {
    let whole = digit_run(body, 0);
    let dotted = whole < body.len() && body[whole] == '.';
    let fraction = if dotted {
        digit_run(body, whole + 1)
    } else {
        0
    };
    let mantissa = if dotted {
        whole + 1 + fraction
    } else {
        whole
    };
    &&& whole + fraction > 0
    &&& (mantissa == body.len() || is_exponent(body, mantissa))
}

/// The texts that write a floating-point number: an optional sign, then a
/// decimal number or one of the words for infinity and not-a-number.
pub open spec fn is_float_syntax(text: Seq<char>) -> bool {
    let body = unsigned_part(text);
    is_special_float(body) || is_decimal_float(body)
}

/// Counts the digits that follow one another from index `from` on.
fn count_digits(text: &Vec<char>, from: usize) -> (count: usize)
    requires
        from <= text.len(),
    ensures
        count == digit_run(text@, from as int),
        from + count <= text.len(),
{
    let mut end: usize = from;
    while end < text.len() && is_digit(text[end])
        invariant
            from <= end <= text.len(),
            digit_run(text@, from as int) == (end - from) + digit_run(text@, end as int),
        decreases text.len() - end,
    {
        end = end + 1;
    }
    end - from
}

fn letter(c: char, lower: char, upper: char) -> (r: bool)
    ensures
        r == is_letter(c, lower, upper),
{
    c == lower || c == upper
}

fn special_float(body: &Vec<char>) -> (r: bool)
    ensures
        r == is_special_float(body@),
{
    if body.len() == 3 {
        (letter(body[0], 'i', 'I') && letter(body[1], 'n', 'N') && letter(body[2], 'f', 'F')) || (
        letter(body[0], 'n', 'N') && letter(body[1], 'a', 'A') && letter(body[2], 'n', 'N'))
    } else if body.len() == 8 {
        letter(body[0], 'i', 'I') && letter(body[1], 'n', 'N') && letter(body[2], 'f', 'F')
            && letter(body[3], 'i', 'I') && letter(body[4], 'n', 'N') && letter(body[5], 'i', 'I')
            && letter(body[6], 't', 'T') && letter(body[7], 'y', 'Y')
    } else {
        false
    }
}

fn exponent(body: &Vec<char>, at: usize) -> (r: bool)
    requires
        at < body.len(),
    ensures
        r == is_exponent(body@, at as int),
{
    if !letter(body[at], 'e', 'E') {
        return false;
    }
    let digits: usize = if at + 1 < body.len() && (body[at + 1] == '+' || body[at + 1] == '-') {
        at + 2
    } else {
        at + 1
    };
    let count = count_digits(body, digits);
    count > 0 && digits + count == body.len()
}

fn decimal_float(body: &Vec<char>) -> (r: bool)
    ensures
        r == is_decimal_float(body@),
{
    let whole = count_digits(body, 0);
    let dotted = whole < body.len() && body[whole] == '.';
    let fraction = if dotted {
        count_digits(body, whole + 1)
    } else {
        0
    };
    let mantissa = if dotted {
        whole + 1 + fraction
    } else {
        whole
    };
    whole + fraction > 0 && (mantissa == body.len() || exponent(body, mantissa))
}

/// Decides whether a text writes a floating-point number.
pub fn is_float_text(text: &str) -> (r: bool)
    ensures
        r == is_float_syntax(text@),
{
    let chars = chars_of(text);
    let start: usize = if chars.len() > 0 && (chars[0] == '+' || chars[0] == '-') {
        1
    } else {
        0
    };
    let mut body: Vec<char> = Vec::new();
    let mut i: usize = start;
    while i < chars.len()
        invariant
            start <= i <= chars.len(),
            body@ == chars@.subrange(start as int, i as int),
        decreases chars.len() - i,
    {
        body.push(chars[i]);
        i = i + 1;
        assert(body@ =~= chars@.subrange(start as int, i as int));
    }
    assert(body@ =~= unsigned_part(text@));
    special_float(&body) || decimal_float(&body)
}

} // verus!
