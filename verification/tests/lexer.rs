use nightcode::frontend::lexer::{
    chars_of, is_digit, is_punctuation, is_whitespace, lookup_punctuation, tokenize, Location,
    Token, TokenKind,
};

fn lex(source: &str) -> Vec<Token> {
    tokenize(&source.to_string())
}

fn shape(tokens: &Vec<Token>) -> Vec<(TokenKind, String, u32, u32)> {
    let mut out = Vec::new();
    for token in tokens {
        out.push((token.kind, token.value.clone(), token.location.line, token.location.ch));
    }
    out
}

fn entry(kind: TokenKind, value: &str, line: u32, ch: u32) -> (TokenKind, String, u32, u32) {
    (kind, value.to_string(), line, ch)
}

#[test]
fn empty_source_is_a_single_eof() {
    let tokens = lex("");
    assert_eq!(shape(&tokens), vec![entry(TokenKind::EOF, "\0", 1, 1)]);
}

#[test]
fn integer_literal() {
    let tokens = lex("42");
    assert_eq!(
        shape(&tokens),
        vec![entry(TokenKind::LiteralInteger, "42", 1, 1), entry(TokenKind::EOF, "\0", 1, 3)]
    );
}

#[test]
fn float_literal() {
    let tokens = lex("3.14");
    assert_eq!(
        shape(&tokens),
        vec![entry(TokenKind::LiteralFloat, "3.14", 1, 1), entry(TokenKind::EOF, "\0", 1, 5)]
    );
}

#[test]
fn float_literal_starting_with_dot() {
    let tokens = lex(".5");
    assert_eq!(
        shape(&tokens),
        vec![entry(TokenKind::LiteralFloat, ".5", 1, 1), entry(TokenKind::EOF, "\0", 1, 3)]
    );
}

#[test]
fn float_literal_with_two_dots_stays_one_token() {
    let tokens = lex("1.2.3");
    assert_eq!(
        shape(&tokens),
        vec![entry(TokenKind::LiteralFloat, "1.2.3", 1, 1), entry(TokenKind::EOF, "\0", 1, 6)]
    );
}

#[test]
fn spaces_around_a_literal() {
    let tokens = lex("  7  ");
    assert_eq!(
        shape(&tokens),
        vec![entry(TokenKind::LiteralInteger, "7", 1, 3), entry(TokenKind::EOF, "\0", 1, 6)]
    );
}

#[test]
fn sum_of_two_literals() {
    let tokens = lex("1+2");
    assert_eq!(
        shape(&tokens),
        vec![
            entry(TokenKind::LiteralInteger, "1", 1, 1),
            entry(TokenKind::PunOperatorPlus, "+", 1, 2),
            entry(TokenKind::LiteralInteger, "2", 1, 3),
            entry(TokenKind::EOF, "\0", 1, 4),
        ]
    );
}

#[test]
fn adjacent_operators_split_at_consecutive_columns() {
    let tokens = lex("+-");
    assert_eq!(
        shape(&tokens),
        vec![
            entry(TokenKind::PunOperatorPlus, "+", 1, 1),
            entry(TokenKind::PunOperatorMinus, "-", 1, 2),
            entry(TokenKind::EOF, "\0", 1, 3),
        ]
    );
}

#[test]
fn every_punctuation_of_the_alphabet() {
    let tokens = lex("+-*/();");
    assert_eq!(
        shape(&tokens),
        vec![
            entry(TokenKind::PunOperatorPlus, "+", 1, 1),
            entry(TokenKind::PunOperatorMinus, "-", 1, 2),
            entry(TokenKind::PunOperatorMultiply, "*", 1, 3),
            entry(TokenKind::PunOperatorDivide, "/", 1, 4),
            entry(TokenKind::PunParenOpen, "(", 1, 5),
            entry(TokenKind::PunParenClose, ")", 1, 6),
            entry(TokenKind::Semicolon, ";", 1, 7),
            entry(TokenKind::EOF, "\0", 1, 8),
        ]
    );
}

#[test]
fn unknown_punctuation_stays_undefined() {
    let tokens = lex("@");
    assert_eq!(
        shape(&tokens),
        vec![
            entry(TokenKind::UndefinedPunctuation, "@", 1, 1),
            entry(TokenKind::EOF, "\0", 1, 2),
        ]
    );
}

#[test]
fn unknown_punctuation_after_known_emits_the_whole_run() {
    let tokens = lex("+-@*");
    assert_eq!(
        shape(&tokens),
        vec![
            entry(TokenKind::PunOperatorPlus, "+", 1, 1),
            entry(TokenKind::PunOperatorMinus, "-", 1, 2),
            entry(TokenKind::UndefinedPunctuation, "+-@*", 1, 1),
            entry(TokenKind::EOF, "\0", 1, 5),
        ]
    );
}

#[test]
fn punctuation_before_a_newline_is_not_split() {
    let tokens = lex("1+\n2");
    assert_eq!(
        shape(&tokens),
        vec![
            entry(TokenKind::LiteralInteger, "1", 1, 1),
            entry(TokenKind::UndefinedPunctuation, "+", 1, 2),
            entry(TokenKind::LiteralInteger, "2", 2, 1),
            entry(TokenKind::EOF, "\0", 2, 2),
        ]
    );
}

#[test]
fn newline_starts_a_line_at_column_one() {
    let tokens = lex("12\n\n  3.5 ;");
    assert_eq!(
        shape(&tokens),
        vec![
            entry(TokenKind::LiteralInteger, "12", 1, 1),
            entry(TokenKind::LiteralFloat, "3.5", 3, 3),
            entry(TokenKind::Semicolon, ";", 3, 7),
            entry(TokenKind::EOF, "\0", 3, 8),
        ]
    );
}

#[test]
fn parenthesised_expression() {
    let tokens = lex("(1 + 2.0) * 3;");
    assert_eq!(
        shape(&tokens),
        vec![
            entry(TokenKind::PunParenOpen, "(", 1, 1),
            entry(TokenKind::LiteralInteger, "1", 1, 2),
            entry(TokenKind::PunOperatorPlus, "+", 1, 4),
            entry(TokenKind::LiteralFloat, "2.0", 1, 6),
            entry(TokenKind::PunParenClose, ")", 1, 9),
            entry(TokenKind::PunOperatorMultiply, "*", 1, 11),
            entry(TokenKind::LiteralInteger, "3", 1, 13),
            entry(TokenKind::Semicolon, ";", 1, 14),
            entry(TokenKind::EOF, "\0", 1, 15),
        ]
    );
}

#[test]
fn letters_join_the_pending_token() {
    let tokens = lex("ab 1a a1 x.y");
    assert_eq!(
        shape(&tokens),
        vec![
            entry(TokenKind::Undefined, "ab", 1, 1),
            entry(TokenKind::LiteralInteger, "1a", 1, 4),
            entry(TokenKind::LiteralInteger, "a1", 1, 7),
            entry(TokenKind::Undefined, "x.y", 1, 10),
            entry(TokenKind::EOF, "\0", 1, 13),
        ]
    );
}

#[test]
fn dot_after_punctuation_starts_a_float() {
    let tokens = lex("-.5");
    assert_eq!(
        shape(&tokens),
        vec![
            entry(TokenKind::PunOperatorMinus, "-", 1, 1),
            entry(TokenKind::LiteralFloat, ".5", 1, 2),
            entry(TokenKind::EOF, "\0", 1, 4),
        ]
    );
}

#[test]
fn digit_after_a_float_keeps_the_float() {
    let tokens = lex("1.5.25 7.");
    assert_eq!(
        shape(&tokens),
        vec![
            entry(TokenKind::LiteralFloat, "1.5.25", 1, 1),
            entry(TokenKind::LiteralFloat, "7.", 1, 8),
            entry(TokenKind::EOF, "\0", 1, 10),
        ]
    );
}

#[test]
fn end_marker_inside_the_source() {
    let tokens = lex("1\0 2");
    assert_eq!(
        shape(&tokens),
        vec![
            entry(TokenKind::LiteralInteger, "1", 1, 1),
            entry(TokenKind::EOF, "\0", 1, 2),
            entry(TokenKind::Undefined, "\0", 1, 2),
            entry(TokenKind::LiteralInteger, "2", 1, 4),
            entry(TokenKind::EOF, "\0", 1, 5),
        ]
    );
}

#[test]
fn unicode_whitespace_separates_tokens() {
    let tokens = lex("1\u{a0}2\u{3000}3\t4\r5");
    assert_eq!(
        shape(&tokens),
        vec![
            entry(TokenKind::LiteralInteger, "1", 1, 1),
            entry(TokenKind::LiteralInteger, "2", 1, 3),
            entry(TokenKind::LiteralInteger, "3", 1, 5),
            entry(TokenKind::LiteralInteger, "4", 1, 7),
            entry(TokenKind::LiteralInteger, "5", 1, 9),
            entry(TokenKind::EOF, "\0", 1, 10),
        ]
    );
}

#[test]
fn last_token_is_always_eof() {
    for source in ["", "1", "+", "@@", "1 +", "\n", "a\nb\n", "\0", "1.2.3", "(", "  "] {
        let tokens = lex(source);
        assert!(!tokens.is_empty());
        assert_eq!(tokens[tokens.len() - 1].kind, TokenKind::EOF);
        assert_eq!(tokens[tokens.len() - 1].value, "\0");
    }
}

#[test]
fn alphabet_inputs_give_no_undefined_token() {
    for source in ["1+2", "12 * (3 - 4) / 5;", "+-*/", "((1))", " 7 \t 8 ", "1\n2\n+ 3", ";;;"] {
        for token in lex(source) {
            assert_ne!(token.kind, TokenKind::Undefined);
            assert_ne!(token.kind, TokenKind::UndefinedPunctuation);
        }
    }
}

#[test]
fn locations_do_not_decrease() {
    for source in ["1+2", "12 * (3 - 4) / 5;", "a b\nc", "+@", "@+-", "1.5\n\n2", "+\n-"] {
        let tokens = lex(source);
        for i in 1..tokens.len() {
            let before = (tokens[i - 1].location.line, tokens[i - 1].location.ch);
            let after = (tokens[i].location.line, tokens[i].location.ch);
            assert!(before <= after);
        }
    }
}

#[test]
fn character_classes_agree_with_the_standard_library() {
    for code in 0u32..=0x10ffff {
        if let Some(c) = char::from_u32(code) {
            assert_eq!(is_digit(c), c.is_digit(10));
            assert_eq!(is_whitespace(c), c.is_whitespace());
            assert_eq!(is_punctuation(c), c != '.' && c.is_ascii_punctuation());
        }
    }
}

#[test]
fn punctuation_alphabet() {
    assert_eq!(lookup_punctuation("+"), Some(TokenKind::PunOperatorPlus));
    assert_eq!(lookup_punctuation("-"), Some(TokenKind::PunOperatorMinus));
    assert_eq!(lookup_punctuation("*"), Some(TokenKind::PunOperatorMultiply));
    assert_eq!(lookup_punctuation("/"), Some(TokenKind::PunOperatorDivide));
    assert_eq!(lookup_punctuation("("), Some(TokenKind::PunParenOpen));
    assert_eq!(lookup_punctuation(")"), Some(TokenKind::PunParenClose));
    assert_eq!(lookup_punctuation(";"), Some(TokenKind::Semicolon));
    assert_eq!(lookup_punctuation(""), None);
    assert_eq!(lookup_punctuation("++"), None);
    assert_eq!(lookup_punctuation("@"), None);
    assert_eq!(lookup_punctuation("."), None);
    assert_eq!(lookup_punctuation("1"), None);
}

#[test]
fn characters_of_a_string() {
    assert_eq!(chars_of(""), Vec::<char>::new());
    assert_eq!(chars_of("a\u{e9}\u{1f600}z"), vec!['a', '\u{e9}', '\u{1f600}', 'z']);
}

#[test]
fn constructors() {
    let location = Location::new(3, 9);
    assert_eq!(location, Location { line: 3, ch: 9 });
    let token = Token::new(TokenKind::Semicolon, ";", 2, 5);
    assert_eq!(token.kind, TokenKind::Semicolon);
    assert_eq!(token.value, ";");
    assert_eq!(token.location, Location { line: 2, ch: 5 });
    let blank = Token::empty(4, 1);
    assert_eq!(blank.kind, TokenKind::Undefined);
    assert_eq!(blank.value, "");
    assert_eq!(blank.location, Location { line: 4, ch: 1 });
}

#[test]
fn rendering_of_locations_and_tokens() {
    assert_eq!(Location::new(1, 1).render(), "(at line: 1, ch: 1)");
    assert_eq!(Location::new(120, 4294967295).render(), "(at line: 120, ch: 4294967295)");
    assert_eq!(Location::new(0, 10).render(), "(at line: 0, ch: 10)");
    let token = Token::new(TokenKind::LiteralFloat, "3.14", 2, 7);
    assert_eq!(token.render(), "token (at line: 2, ch: 7) | value: 3.14 | kind: LiteralFloat");
    let end = Token::new(TokenKind::EOF, "\0", 1, 1);
    assert_eq!(end.render(), "token (at line: 1, ch: 1) | value: \0 | kind: EOF");
    assert_eq!(TokenKind::PunOperatorMultiply.name(), "PunOperatorMultiply");
    assert_eq!(TokenKind::UndefinedPunctuation.name(), "UndefinedPunctuation");
}

#[test]
fn checked_entry_agrees_with_the_plain_one() {
    for source in ["", "1+2", "a\nb", "+-@"] {
        let plain = lex(source);
        let checked = nightcode::frontend::lexer::try_tokenize(&source.to_string()).unwrap();
        assert_eq!(shape(&plain), shape(&checked));
    }
}

fn index_of(source: &[char], line: u32, ch: u32) -> usize {
    let mut at = 0;
    let mut seen = 1;
    while seen < line {
        if source[at] == '\n' {
            seen += 1;
        }
        at += 1;
    }
    at + (ch as usize - 1)
}

#[test]
fn every_token_is_a_piece_of_the_source_at_its_location() {
    for source in [
        "",
        "42",
        "  7  ",
        "1+2",
        "(1 + 2.0) * 3;",
        "12\n\n  3.5 ;",
        "+-@*",
        "1+\n2",
        "ab 1a a1 x.y",
        "1\0 2",
        "\n\n\n",
        "a\u{e9}\u{1f600} + 1",
    ] {
        let mut full: Vec<char> = source.chars().collect();
        full.push('\0');
        for token in lex(source) {
            let at = index_of(&full, token.location.line, token.location.ch);
            let text: Vec<char> = token.value.chars().collect();
            assert_eq!(&full[at..at + text.len()], &text[..], "{:?}", source);
        }
    }
}

#[test]
fn sources_without_the_end_marker_have_one_eof() {
    for source in ["", "1", "1+2", "@", "a\nb\n", "+-@*", "1.2.3 ."] {
        let tokens = lex(source);
        let count = tokens.iter().filter(|t| t.kind == TokenKind::EOF).count();
        assert_eq!(count, 1, "{:?}", source);
    }
}

#[test]
fn line_ending_in_punctuation_gives_an_unclassified_token() {
    for source in ["+\n", "1 -\n2", "((\n", "1;\n"] {
        let tokens = lex(source);
        assert!(tokens.iter().any(|t| t.kind == TokenKind::UndefinedPunctuation), "{:?}", source);
    }
}

#[test]
fn late_unknown_punctuation_puts_locations_out_of_order() {
    let tokens = lex("1 +-@ 2");
    assert_eq!(
        shape(&tokens),
        vec![
            entry(TokenKind::LiteralInteger, "1", 1, 1),
            entry(TokenKind::PunOperatorPlus, "+", 1, 3),
            entry(TokenKind::PunOperatorMinus, "-", 1, 4),
            entry(TokenKind::UndefinedPunctuation, "+-@", 1, 3),
            entry(TokenKind::LiteralInteger, "2", 1, 7),
            entry(TokenKind::EOF, "\0", 1, 8),
        ]
    );
    let tokens = lex("+@-");
    assert_eq!(
        shape(&tokens),
        vec![
            entry(TokenKind::PunOperatorPlus, "+", 1, 1),
            entry(TokenKind::UndefinedPunctuation, "+@-", 1, 1),
            entry(TokenKind::EOF, "\0", 1, 4),
        ]
    );
}

#[test]
fn longest_source() {
    assert_eq!(nightcode::frontend::lexer::MAX_SOURCE_CHARS, u32::MAX - 2);
}
