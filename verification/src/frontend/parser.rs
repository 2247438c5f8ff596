use vstd::prelude::*;
use crate::error::{Diagnostic, Error, ErrorKind};
use crate::frontend::ast::{FloatLiteral, SpecNode, SpecValue, Value, ValueNode};
use crate::frontend::lexer::{is_literal, is_undefined, lexemes, Lexeme, Token, TokenKind};
use crate::frontend::number::{i32_value, is_float_syntax, parse_i32};

verus! {

/// How tightly an operator binds: the additive ones less than the
/// multiplicative ones. Tokens that are no operators have no precedence.
pub open spec fn precedence(kind: TokenKind) -> Option<i32> {
    match kind {
        TokenKind::PunOperatorPlus => Some(0i32),
        TokenKind::PunOperatorMinus => Some(0i32),
        TokenKind::PunOperatorMultiply => Some(1i32),
        TokenKind::PunOperatorDivide => Some(1i32),
        _ => None,
    }
}

/// The precedence of an operator token.
pub fn operator_precedence(kind: TokenKind) -> (level: Option<i32>)
    ensures
        level == precedence(kind),
{
    match kind {
        TokenKind::PunOperatorPlus => Some(0),
        TokenKind::PunOperatorMinus => Some(0),
        TokenKind::PunOperatorMultiply => Some(1),
        TokenKind::PunOperatorDivide => Some(1),
        _ => None,
    }
}

/// What the result of a parse holds: a tree or an error.
pub open spec fn outcome<'a>(result: Result<ValueNode, Error<'a>>) -> Result<SpecNode, Diagnostic> {
    match result {
        Ok(node) => Ok(node@),
        Err(error) => Err(error@),
    }
}

/// An error of the parser at the place of a token.
pub open spec fn parser_error(message: Seq<char>, token: Lexeme) -> Diagnostic {
    Diagnostic { kind: ErrorKind::ParserError, message, line: token.line, ch: token.ch }
}

/// The literal that a token writes: an integer token a 32-bit signed
/// integer, a float token a floating-point number; any other token, and a
/// text that does not write such a number, is an error.
pub open spec fn literal_of(token: Lexeme) -> Result<SpecNode, Diagnostic> {
    match token.kind {
        TokenKind::LiteralInteger => match i32_value(token.text) {
            Some(v) => Ok(SpecNode::Literal(SpecValue::Integer(v))),
            None => Err(parser_error("invalid integer literal"@, token)),
        },
        TokenKind::LiteralFloat => if is_float_syntax(token.text) {
            Ok(SpecNode::Literal(SpecValue::SingleFloat(token.text)))
        } else {
            Err(parser_error("invalid float literal"@, token))
        },
        _ => Err(parser_error("got non literal token while trying to parse literal"@, token)),
    }
}

/// The index of the first token from `start` on that ends the search for an
/// expression: a literal or an unclassified token. Where there is none, the
/// length of the sequence.
pub open spec fn first_stop(tokens: Seq<Lexeme>, start: int) -> int
    decreases tokens.len() - start,
{
    if start < 0 || start >= tokens.len() {
        tokens.len() as int
    } else if is_undefined(tokens[start].kind) || is_literal(tokens[start].kind) {
        start
    } else {
        first_stop(tokens, start + 1)
    }
}

/// The tokens from `start` on hold a literal or an unclassified token.
pub open spec fn has_expression(tokens: Seq<Lexeme>, start: int) -> bool {
    first_stop(tokens, start) < tokens.len()
}

/// The expression that the tokens from `start` on write: the first literal,
/// unless an unclassified token comes before it.
pub open spec fn expression_of(tokens: Seq<Lexeme>, start: int) -> Result<SpecNode, Diagnostic>
    recommends
        has_expression(tokens, start),
{
    let token = tokens[first_stop(tokens, start)];
    if is_undefined(token.kind) {
        Err(
            Diagnostic {
                kind: ErrorKind::SyntaxError,
                message: "found undefined token"@,
                line: token.line,
                ch: token.ch,
            },
        )
    } else {
        literal_of(token)
    }
}

/// Finds the first literal or unclassified token from `start` on.
pub fn find_expression(tokens: &Vec<Token>, start: usize) -> (found: Option<usize>)
    ensures
        found is Some <==> has_expression(lexemes(tokens@), start as int),
        found matches Some(i) ==> {
            &&& i == first_stop(lexemes(tokens@), start as int)
            &&& start <= i < tokens.len()
            &&& is_undefined(tokens[i as int].kind) || is_literal(tokens[i as int].kind)
        },
        forall|j: int|
            start <= j < tokens.len() && (found matches Some(i) ==> j < i) ==> !is_undefined(
                (#[trigger] tokens[j]).kind,
            ) && !is_literal(tokens[j].kind),
{
    let mut i: usize = start;
    while i < tokens.len()
        invariant
            start <= i,
            first_stop(lexemes(tokens@), start as int) == first_stop(lexemes(tokens@), i as int),
            forall|j: int|
                start <= j < i && j < tokens.len() ==> !is_undefined((#[trigger] tokens[j]).kind)
                    && !is_literal(tokens[j].kind),
        decreases tokens.len() - i,
    {
        let kind = tokens[i].kind;
        assert(lexemes(tokens@)[i as int] == tokens@[i as int]@);
        if kind == TokenKind::Undefined || kind == TokenKind::UndefinedPunctuation || kind
            == TokenKind::LiteralInteger || kind == TokenKind::LiteralFloat {
            return Some(i);
        }
        i = i + 1;
    }
    None
}

/// Reads the literal that a token writes.
pub fn parse_literal<'a>(token: &'a Token) -> (result: Result<ValueNode, Error<'a>>)
    ensures
        outcome(result) == literal_of(token@),
        result matches Err(error) ==> error.location == &token.location,
{
    match token.kind {
        TokenKind::LiteralInteger => {
            match parse_i32(token.value.as_str()) {
                Some(v) => Ok(ValueNode::Literal(Value::Integer(v))),
                None => Err(Error::parser("invalid integer literal", &token.location)),
            }
        },
        TokenKind::LiteralFloat => {
            match FloatLiteral::new(token.value.as_str()) {
                Some(literal) => Ok(ValueNode::Literal(Value::SingleFloat(literal))),
                None => Err(Error::parser("invalid float literal", &token.location)),
            }
        },
        _ => Err(
            Error::parser("got non literal token while trying to parse literal", &token.location),
        ),
    }
}

/// Reads the expression that starts at or after index `start`: the first
/// literal there, or the error of the first unclassified token before it.
///
/// The tokens from `start` on must hold a literal or an unclassified token;
/// [`find_expression`] tells whether they do.
pub fn parse_expression<'a>(tokens: &'a Vec<Token>, start: usize) -> (result: Result<
    ValueNode,
    Error<'a>,
>)
    requires
        has_expression(lexemes(tokens@), start as int),
    ensures
        outcome(result) == expression_of(lexemes(tokens@), start as int),
{
    let mut current_token: usize = start;
    loop
        invariant
            start <= current_token < tokens.len(),
            first_stop(lexemes(tokens@), current_token as int) == first_stop(
                lexemes(tokens@),
                start as int,
            ),
            has_expression(lexemes(tokens@), start as int),
        decreases tokens.len() - current_token,
    {
        let token = &tokens[current_token];
        assert(lexemes(tokens@)[current_token as int] == token@);
        if token.kind == TokenKind::Undefined || token.kind == TokenKind::UndefinedPunctuation {
            return Err(Error::syntax("found undefined token", &token.location));
        }
        if token.kind == TokenKind::LiteralFloat || token.kind == TokenKind::LiteralInteger {
            return parse_literal(token);
        }
        current_token = current_token + 1;
        assert(current_token < tokens.len()) by {
            let all = lexemes(tokens@);
            assert(first_stop(all, current_token as int) == first_stop(all, start as int));
            assert(all.len() == tokens.len());
        }
    }
}

/// Reads the expression that a token sequence writes.
///
/// The tokens must hold a literal or an unclassified token; a sequence with
/// neither has no expression to read.
pub fn parse<'a>(tokens: &'a Vec<Token>) -> (result: Result<ValueNode, Error<'a>>)
    requires
        has_expression(lexemes(tokens@), 0),
    ensures
        outcome(result) == expression_of(lexemes(tokens@), 0),
{
    parse_expression(tokens, 0)
}

} // verus!
