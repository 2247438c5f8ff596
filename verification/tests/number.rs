use nightcode::frontend::number::{is_float_text, parse_i32, push_decimal};

#[test]
fn integers_in_range() {
    assert_eq!(parse_i32("0"), Some(0));
    assert_eq!(parse_i32("42"), Some(42));
    assert_eq!(parse_i32("+42"), Some(42));
    assert_eq!(parse_i32("-42"), Some(-42));
    assert_eq!(parse_i32("-0"), Some(0));
    assert_eq!(parse_i32("999999999"), Some(999999999));
    assert_eq!(parse_i32("2147483647"), Some(2147483647));
    assert_eq!(parse_i32("-2147483648"), Some(-2147483648));
    assert_eq!(parse_i32("00000000000000000000000017"), Some(17));
}

#[test]
fn integers_out_of_range_or_malformed() {
    assert_eq!(parse_i32("2147483648"), None);
    assert_eq!(parse_i32("-2147483649"), None);
    assert_eq!(parse_i32("99999999999999999999999999"), None);
    assert_eq!(parse_i32(""), None);
    assert_eq!(parse_i32("+"), None);
    assert_eq!(parse_i32("-"), None);
    assert_eq!(parse_i32("1a"), None);
    assert_eq!(parse_i32("a1"), None);
    assert_eq!(parse_i32(" 1"), None);
    assert_eq!(parse_i32("1 "), None);
    assert_eq!(parse_i32("1_000"), None);
    assert_eq!(parse_i32("--1"), None);
    assert_eq!(parse_i32("1.0"), None);
    assert_eq!(parse_i32("\u{661}"), None);
}

fn samples() -> Vec<String> {
    let pieces = [
        "", "0", "1", "9", "12", "007", ".", "+", "-", "e", "E", "e5", "E+5", "e-", "inf", "INF",
        "Infinity", "infinity", "nan", "NaN", "in", "infinit", " ", "a", "_", "\u{661}",
        "2147483647", "2147483648", "99999999999",
    ];
    let mut out = Vec::new();
    for a in pieces {
        for b in pieces {
            for c in pieces {
                out.push(format!("{}{}{}", a, b, c));
            }
        }
    }
    out
}

#[test]
fn integer_reading_agrees_with_the_standard_library() {
    for text in samples() {
        assert_eq!(parse_i32(&text), text.parse::<i32>().ok(), "{:?}", text);
    }
}

#[test]
fn float_syntax_agrees_with_the_standard_library() {
    for text in samples() {
        assert_eq!(is_float_text(&text), text.parse::<f32>().is_ok(), "{:?}", text);
        assert_eq!(is_float_text(&text), text.parse::<f64>().is_ok(), "{:?}", text);
    }
}

#[test]
fn float_syntax() {
    for text in ["3.14", ".5", "5.", "0", "1e5", "1E-5", "1.5e+10", "+1.0", "-.5e1", "inf", "-inf",
        "+Infinity", "nan", "NAN", "000.000"]
    {
        assert!(is_float_text(text), "{:?}", text);
    }
    for text in ["", ".", "+", "-.", "1.2.3", "e5", "1e", "1e+", "1.5f", " 1", "1 ", "infinit",
        "in", "1..2", "1e5.0", "0x10", "1_0", "++1", "nan1"]
    {
        assert!(!is_float_text(text), "{:?}", text);
    }
}

#[test]
fn decimal_numerals() {
    for n in [0u32, 1, 9, 10, 11, 99, 100, 101, 12345, 4294967295] {
        let mut text = String::from("n=");
        push_decimal(&mut text, n);
        assert_eq!(text, format!("n={}", n));
    }
}

#[test]
fn decimal_numerals_read_back() {
    for n in [0u32, 7, 10, 42, 1000, 999999999, 2147483647] {
        let mut text = String::new();
        push_decimal(&mut text, n);
        assert_eq!(parse_i32(&text), Some(n as i32));
    }
}
