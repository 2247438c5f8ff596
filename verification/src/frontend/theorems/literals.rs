use vstd::prelude::*;
use crate::error::Diagnostic;
use crate::frontend::ast::{SpecNode, SpecValue};
use crate::frontend::lexer::{
    initial_state, is_digit_char, lemma_scan_push, lex, scan, Lexeme, ScanState, TokenKind,
};
use crate::frontend::number::{
    all_digits, decimal_text, decimal_value, digit_of, digit_run, is_decimal_float,
    is_float_syntax, lemma_decimal_value_nonnegative, unsigned_part,
};
use crate::frontend::parser::{expression_of, first_stop, has_expression, literal_of, parser_error};

verus! {

// Sources that are one numeric literal: their tokens and what the parser
// reads from them.

/// The state in which nothing has been emitted and one token, which
/// started with the source, is pending.
pub open spec fn one_pending(kind: TokenKind, text: Seq<char>) -> ScanState {
    ScanState {
        line: 1,
        ch: text.len() + 1,
        current: Lexeme { kind, text, line: 1, ch: 1 },
        output: Seq::empty(),
    }
}

/// The tokens of a source that is one token of the given kind.
pub open spec fn single_token(kind: TokenKind, text: Seq<char>) -> Seq<Lexeme> {
    seq![
        Lexeme { kind, text, line: 1, ch: 1 },
        Lexeme { kind: TokenKind::EOF, text: seq!['\0'], line: 1, ch: text.len() + 1 },
    ]
}

proof fn lemma_scan_digits(digits: Seq<char>)
    requires
        all_digits(digits),
        digits.len() > 0,
    ensures
        scan(digits) == one_pending(TokenKind::LiteralInteger, digits),
    decreases digits.len(),
{
    let front = digits.drop_last();
    let c = digits.last();
    assert(is_digit_char(c));
    assert(front.push(c) =~= digits);
    lemma_scan_push(front, c);
    if front.len() > 0 {
        assert(all_digits(front)) by {
            assert(forall|i: int| 0 <= i < front.len() ==> front[i] == digits[i]);
        }
        lemma_scan_digits(front);
    } else {
        assert(scan(front) == initial_state());
    }
    assert(scan(digits).current.text =~= digits);
}

proof fn lemma_scan_decimal(whole: Seq<char>, fraction: Seq<char>)
    requires
        all_digits(whole),
        all_digits(fraction),
    ensures
        scan(whole.push('.') + fraction) == one_pending(
            TokenKind::LiteralFloat,
            whole.push('.') + fraction,
        ),
    decreases fraction.len(),
{
    let text = whole.push('.') + fraction;
    if fraction.len() == 0 {
        assert(text =~= whole.push('.'));
        lemma_scan_push(whole, '.');
        if whole.len() > 0 {
            lemma_scan_digits(whole);
        } else {
            assert(scan(whole) == initial_state());
        }
        assert(scan(text).current.text =~= text);
    } else {
        let front = fraction.drop_last();
        let c = fraction.last();
        assert(is_digit_char(c));
        assert(all_digits(front)) by {
            assert(forall|i: int| 0 <= i < front.len() ==> front[i] == fraction[i]);
        }
        lemma_scan_decimal(whole, front);
        assert((whole.push('.') + front).push(c) =~= text);
        lemma_scan_push(whole.push('.') + front, c);
        assert(scan(text).current.text =~= text);
    }
}

/// A source that leaves one literal pending and nothing emitted has that
/// literal and the `EOF` token as its tokens.
proof fn lemma_lex_one_pending(kind: TokenKind, text: Seq<char>)
    requires
        text.len() > 0,
        kind == TokenKind::LiteralInteger || kind == TokenKind::LiteralFloat,
        scan(text) == one_pending(kind, text),
    ensures
        lex(text) == single_token(kind, text),
        has_expression(lex(text), 0),
        expression_of(lex(text), 0) == literal_of(Lexeme { kind, text, line: 1, ch: 1 }),
{
    lemma_scan_push(text, '\0');
    assert(lex(text) =~= single_token(kind, text));
    assert(first_stop(lex(text), 0) == 0);
}

/// A power of ten.
pub open spec fn ten_to(n: nat) -> nat
    decreases n,
{
    if n == 0 {
        1
    } else {
        10 * ten_to((n - 1) as nat)
    }
}

/// A numeral of `n` digits writes a number below the `n`th power of ten.
pub proof fn lemma_decimal_value_bound(digits: Seq<char>)
    requires
        all_digits(digits),
    ensures
        0 <= decimal_value(digits) < ten_to(digits.len()),
    decreases digits.len(),
{
    if digits.len() > 0 {
        let front = digits.drop_last();
        assert(all_digits(front)) by {
            assert(forall|i: int| 0 <= i < front.len() ==> front[i] == digits[i]);
        }
        lemma_decimal_value_bound(front);
        assert(is_digit_char(digits.last()));
    }
}

proof fn lemma_ten_to_monotonic(a: nat, b: nat)
    requires
        a <= b,
    ensures
        0 < ten_to(a) <= ten_to(b),
    decreases b,
{
    if a < b {
        lemma_ten_to_monotonic(a, (b - 1) as nat);
    } else if a > 0 {
        lemma_ten_to_monotonic((a - 1) as nat, (a - 1) as nat);
    }
}

/// The tokens and the expression of a source that is a decimal numeral: the
/// number it writes if that is a 32-bit signed integer, and else the error
/// of an invalid integer literal at the start of the source.
pub proof fn lemma_integer_source(digits: Seq<char>)
    requires
        all_digits(digits),
        digits.len() > 0,
    ensures
        lex(digits) == single_token(TokenKind::LiteralInteger, digits),
        has_expression(lex(digits), 0),
        expression_of(lex(digits), 0) == if decimal_value(digits) <= i32::MAX {
            Ok::<SpecNode, Diagnostic>(
                SpecNode::Literal(SpecValue::Integer(decimal_value(digits) as i32)),
            )
        } else {
            Err::<SpecNode, Diagnostic>(
                parser_error("invalid integer literal"@, single_token(TokenKind::LiteralInteger, digits)[0]),
            )
        },
{
    lemma_scan_digits(digits);
    lemma_lex_one_pending(TokenKind::LiteralInteger, digits);
    lemma_decimal_value_nonnegative(digits);
    assert(is_digit_char(digits[0]));
    assert(unsigned_part(digits) == digits);
}

/// A source of one to nine decimal digits is read as the integer that the
/// digits write.
pub proof fn lemma_short_integer_source(digits: Seq<char>)
    requires
        all_digits(digits),
        0 < digits.len() <= 9,
    ensures
        0 <= decimal_value(digits) < 1_000_000_000,
        expression_of(lex(digits), 0) == Ok::<SpecNode, Diagnostic>(
            SpecNode::Literal(SpecValue::Integer(decimal_value(digits) as i32)),
        ),
{
    lemma_integer_source(digits);
    lemma_decimal_value_bound(digits);
    lemma_ten_to_monotonic(digits.len(), 9);
    assert(ten_to(9) == 1_000_000_000) by {
        reveal_with_fuel(ten_to, 10);
    }
}

/// From `from` on, `text` holds exactly `n` digits before it ends or goes
/// on with another character.
proof fn lemma_digit_run_exact(text: Seq<char>, from: int, n: int)
    requires
        0 <= from,
        0 <= n,
        from + n <= text.len(),
        forall|i: int| from <= i < from + n ==> is_digit_char(#[trigger] text[i]),
        from + n < text.len() ==> !is_digit_char(text[from + n]),
    ensures
        digit_run(text, from) == n,
    decreases n,
{
    if n > 0 {
        assert(is_digit_char(text[from]));
        lemma_digit_run_exact(text, from + 1, n - 1);
    }
}

/// Digits, a dot and digits, with a digit on at least one side, write a
/// floating-point number.
pub proof fn lemma_decimal_is_float_syntax(whole: Seq<char>, fraction: Seq<char>)
    requires
        all_digits(whole),
        all_digits(fraction),
        whole.len() + fraction.len() > 0,
    ensures
        is_float_syntax(whole.push('.') + fraction),
{
    let text = whole.push('.') + fraction;
    assert(forall|i: int| 0 <= i < whole.len() ==> text[i] == whole[i]);
    assert(text[whole.len() as int] == '.');
    assert(forall|i: int|
        whole.len() < i < text.len() ==> #[trigger] text[i] == fraction[i - whole.len() - 1]);
    assert(unsigned_part(text) == text) by {
        if whole.len() > 0 {
            assert(is_digit_char(text[0]));
        }
    }
    lemma_digit_run_exact(text, 0, whole.len() as int);
    lemma_digit_run_exact(text, whole.len() as int + 1, fraction.len() as int);
    assert(is_decimal_float(text));
}

/// A source of digits, a dot and digits, with a digit on at least one side,
/// is one float token, and is read as the floating-point literal of that
/// text.
pub proof fn lemma_decimal_source(whole: Seq<char>, fraction: Seq<char>)
    requires
        all_digits(whole),
        all_digits(fraction),
        whole.len() + fraction.len() > 0,
    ensures
        lex(whole.push('.') + fraction) == single_token(
            TokenKind::LiteralFloat,
            whole.push('.') + fraction,
        ),
        has_expression(lex(whole.push('.') + fraction), 0),
        expression_of(lex(whole.push('.') + fraction), 0) == Ok::<SpecNode, Diagnostic>(
            SpecNode::Literal(SpecValue::SingleFloat(whole.push('.') + fraction)),
        ),
{
    let text = whole.push('.') + fraction;
    lemma_scan_decimal(whole, fraction);
    lemma_lex_one_pending(TokenKind::LiteralFloat, text);
    lemma_decimal_is_float_syntax(whole, fraction);
}

/// The decimal numeral of a number is made of digits and writes that
/// number.
pub proof fn lemma_decimal_text(n: nat)
    ensures
        decimal_text(n).len() > 0,
        all_digits(decimal_text(n)),
        decimal_value(decimal_text(n)) == n,
    decreases n,
{
    if n < 10 {
        let text = decimal_text(n);
        assert(text.drop_last() =~= Seq::<char>::empty());
        assert(decimal_value(text.drop_last()) == 0);
    } else {
        lemma_decimal_text(n / 10);
        let front = decimal_text(n / 10);
        let text = decimal_text(n);
        assert(text.drop_last() =~= front);
        assert(is_digit_char(digit_of((n % 10) as int)));
        assert(all_digits(text)) by {
            assert(forall|i: int| 0 <= i < front.len() ==> text[i] == front[i]);
        }
    }
}

/// Writing a non-negative 32-bit integer in decimal and reading the text
/// as a source gives the integer back: one integer token, and the literal
/// of the same value.
pub proof fn lemma_integer_round_trip(n: i32)
    requires
        n >= 0,
    ensures
        lex(decimal_text(n as nat)) == single_token(
            TokenKind::LiteralInteger,
            decimal_text(n as nat),
        ),
        expression_of(lex(decimal_text(n as nat)), 0) == Ok::<SpecNode, Diagnostic>(
            SpecNode::Literal(SpecValue::Integer(n)),
        ),
{
    lemma_decimal_text(n as nat);
    lemma_integer_source(decimal_text(n as nat));
}

} // verus!
