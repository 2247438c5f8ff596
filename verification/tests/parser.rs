use nightcode::error::{Error, ErrorKind};
use nightcode::frontend::ast::{FloatLiteral, Value, ValueNode};
use nightcode::frontend::lexer::{tokenize, Location, Token, TokenKind};
use nightcode::frontend::parser::{
    find_expression, operator_precedence, parse, parse_expression, parse_literal,
};

fn lex(source: &str) -> Vec<Token> {
    tokenize(&source.to_string())
}

fn integer(result: Result<ValueNode, Error>) -> i32 {
    match result {
        Ok(ValueNode::Literal(Value::Integer(v))) => v,
        other => panic!("no integer literal: {:?}", other),
    }
}

fn single_float(result: Result<ValueNode, Error>) -> f32 {
    match result {
        Ok(ValueNode::Literal(Value::SingleFloat(literal))) => {
            literal.as_str().parse::<f32>().unwrap()
        }
        other => panic!("no float literal: {:?}", other),
    }
}

fn failure(result: Result<ValueNode, Error>) -> (ErrorKind, String, u32, u32) {
    match result {
        Err(error) => {
            (error.kind, error.message.to_string(), error.location.line, error.location.ch)
        }
        Ok(node) => panic!("no error: {:?}", node),
    }
}

#[test]
fn parse_integer() {
    let tokens = lex("42");
    assert_eq!(integer(parse(&tokens)), 42);
}

#[test]
fn parse_float() {
    let tokens = lex("3.14");
    assert_eq!(single_float(parse(&tokens)), 3.14f32);
}

#[test]
fn parse_float_starting_with_dot() {
    let tokens = lex(".5");
    assert_eq!(single_float(parse(&tokens)), 0.5f32);
}

#[test]
fn parse_literal_between_spaces() {
    let tokens = lex("  7  ");
    assert_eq!(integer(parse(&tokens)), 7);
}

#[test]
fn parse_returns_the_first_literal() {
    let tokens = lex("1+2");
    assert_eq!(integer(parse(&tokens)), 1);
    let tokens = lex("(((5)))");
    assert_eq!(integer(parse(&tokens)), 5);
    let tokens = lex("- 2.5 * 3");
    assert_eq!(single_float(parse(&tokens)), 2.5f32);
}

#[test]
fn parse_unknown_punctuation() {
    let tokens = lex("@");
    assert_eq!(
        failure(parse(&tokens)),
        (ErrorKind::SyntaxError, "found undefined token".to_string(), 1, 1)
    );
}

#[test]
fn parse_undefined_token_before_a_literal() {
    let tokens = lex("+ abc 1");
    assert_eq!(
        failure(parse(&tokens)),
        (ErrorKind::SyntaxError, "found undefined token".to_string(), 1, 3)
    );
}

#[test]
fn parse_integer_out_of_range() {
    let tokens = lex("2147483648");
    assert_eq!(
        failure(parse(&tokens)),
        (ErrorKind::ParserError, "invalid integer literal".to_string(), 1, 1)
    );
}

#[test]
fn parse_largest_integer() {
    let tokens = lex("2147483647");
    assert_eq!(integer(parse(&tokens)), 2147483647);
}

#[test]
fn parse_integer_with_letters() {
    let tokens = lex("\n 12ab");
    assert_eq!(
        failure(parse(&tokens)),
        (ErrorKind::ParserError, "invalid integer literal".to_string(), 2, 2)
    );
}

#[test]
fn parse_float_with_two_dots() {
    let tokens = lex("1.2.3");
    assert_eq!(
        failure(parse(&tokens)),
        (ErrorKind::ParserError, "invalid float literal".to_string(), 1, 1)
    );
}

#[test]
fn parse_lone_dot() {
    let tokens = lex(" .");
    assert_eq!(
        failure(parse(&tokens)),
        (ErrorKind::ParserError, "invalid float literal".to_string(), 1, 2)
    );
}

#[test]
fn parse_expression_from_a_later_index() {
    let tokens = lex("1 + 2 * 3.5");
    assert_eq!(integer(parse_expression(&tokens, 0)), 1);
    assert_eq!(integer(parse_expression(&tokens, 1)), 2);
    assert_eq!(integer(parse_expression(&tokens, 2)), 2);
    assert_eq!(single_float(parse_expression(&tokens, 3)), 3.5f32);
    assert_eq!(single_float(parse_expression(&tokens, 4)), 3.5f32);
}

#[test]
fn empty_source_has_no_expression() {
    let tokens = lex("");
    assert_eq!(tokens.len(), 1);
    assert_eq!(tokens[0].kind, TokenKind::EOF);
    assert_eq!(find_expression(&tokens, 0), None);
}

#[test]
fn finding_the_expression() {
    let tokens = lex("( + 1 ) @ 2");
    assert_eq!(find_expression(&tokens, 0), Some(2));
    assert_eq!(find_expression(&tokens, 2), Some(2));
    assert_eq!(find_expression(&tokens, 3), Some(4));
    assert_eq!(find_expression(&tokens, 5), Some(5));
    assert_eq!(find_expression(&tokens, 6), None);
    assert_eq!(find_expression(&tokens, 7), None);
    assert_eq!(find_expression(&tokens, 100), None);
}

#[test]
fn literal_of_an_integer_token() {
    let token = Token::new(TokenKind::LiteralInteger, "-17", 1, 1);
    assert_eq!(integer(parse_literal(&token)), -17);
}

#[test]
fn literal_of_a_float_token() {
    let token = Token::new(TokenKind::LiteralFloat, "1e3", 1, 1);
    assert_eq!(single_float(parse_literal(&token)), 1000.0f32);
    let token = Token::new(TokenKind::LiteralFloat, "-inf", 1, 1);
    assert_eq!(single_float(parse_literal(&token)), f32::NEG_INFINITY);
    let token = Token::new(TokenKind::LiteralFloat, "7", 1, 1);
    assert_eq!(single_float(parse_literal(&token)), 7.0f32);
}

#[test]
fn literal_of_another_token() {
    for kind in [
        TokenKind::PunOperatorPlus,
        TokenKind::PunParenOpen,
        TokenKind::Semicolon,
        TokenKind::EOF,
        TokenKind::Undefined,
        TokenKind::UndefinedPunctuation,
    ] {
        let token = Token::new(kind, "1", 6, 2);
        assert_eq!(
            failure(parse_literal(&token)),
            (
                ErrorKind::ParserError,
                "got non literal token while trying to parse literal".to_string(),
                6,
                2
            )
        );
    }
}

#[test]
fn error_borrows_the_location_of_its_token() {
    let token = Token::new(TokenKind::LiteralInteger, "x", 3, 4);
    match parse_literal(&token) {
        Err(error) => assert!(std::ptr::eq(error.location, &token.location)),
        Ok(node) => panic!("no error: {:?}", node),
    }
}

#[test]
fn integers_of_up_to_nine_digits() {
    for text in ["0", "00", "5", "10", "123456789", "999999999", "000000001"] {
        let tokens = lex(text);
        assert_eq!(integer(parse(&tokens)), text.parse::<i32>().unwrap());
    }
}

#[test]
fn floats_of_up_to_nine_digits_each_side() {
    for text in ["0.0", "1.5", "123456789.987654321", "000000001.100000000", "3.14159"] {
        let tokens = lex(text);
        let expected = text.parse::<f64>().unwrap();
        let got = single_float(parse(&tokens));
        let ulp = f32::from_bits(got.to_bits() + 1) - got;
        assert!(((got as f64) - expected).abs() <= ulp as f64, "{:?}", text);
    }
}

#[test]
fn integer_literals_survive_writing_and_rereading() {
    for n in [0i32, 1, 9, 10, 4711, 999999999, 2147483647] {
        let text = n.to_string();
        let tokens = lex(&text);
        assert_eq!(tokens[0].kind, TokenKind::LiteralInteger);
        assert_eq!(integer(parse(&tokens)), n);
    }
}

#[test]
fn float_literals_survive_writing_and_rereading() {
    for x in [0.5f32, 3.14, 1.0, 100.25, 16777216.0] {
        let text = format!("{:?}", x);
        let tokens = lex(&text);
        assert_eq!(tokens[0].kind, TokenKind::LiteralFloat);
        assert_eq!(single_float(parse(&tokens)), x);
    }
}

#[test]
fn float_literal_keeps_only_float_texts() {
    assert!(FloatLiteral::new("1.2.3").is_none());
    assert!(FloatLiteral::new("").is_none());
    assert_eq!(FloatLiteral::new("2.50").map(|l| l.as_str().to_string()), Some("2.50".to_string()));
}

#[test]
fn precedences() {
    assert_eq!(operator_precedence(TokenKind::PunOperatorPlus), Some(0));
    assert_eq!(operator_precedence(TokenKind::PunOperatorMinus), Some(0));
    assert_eq!(operator_precedence(TokenKind::PunOperatorMultiply), Some(1));
    assert_eq!(operator_precedence(TokenKind::PunOperatorDivide), Some(1));
    assert_eq!(operator_precedence(TokenKind::PunParenOpen), None);
    assert_eq!(operator_precedence(TokenKind::LiteralInteger), None);
    assert_eq!(operator_precedence(TokenKind::EOF), None);
}

#[test]
fn error_constructors_and_rendering() {
    let location = Location::new(12, 34);
    let error = Error::new(ErrorKind::ParserError, "invalid integer literal", &location);
    assert_eq!(error.kind, ErrorKind::ParserError);
    assert_eq!(error.message, "invalid integer literal");
    assert_eq!(*error.location, location);
    assert_eq!(error.render(), "Parser Error: invalid integer literal (at line: 12, ch: 34)");
    let error = Error::syntax("found undefined token", &location);
    assert_eq!(error.kind, ErrorKind::SyntaxError);
    assert_eq!(error.render(), "Syntax Error: found undefined token (at line: 12, ch: 34)");
    let error = Error::parser("x", &location);
    assert_eq!(error.kind, ErrorKind::ParserError);
    assert_eq!(ErrorKind::SyntaxError.title(), "Syntax Error");
    assert_eq!(ErrorKind::ParserError.title(), "Parser Error");
}
