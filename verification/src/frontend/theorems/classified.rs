use vstd::prelude::*;
use crate::frontend::lexer::{
    classify, consume, end_of_input, is_digit_char, is_punctuation_char, is_undefined,
    is_whitespace_char, lemma_scan_push, lex, scan, split_pending, step, ScanState, TokenKind,
};
use crate::frontend::theorems::alphabet::{in_alphabet, lemma_alphabet_is_single, lemma_split_known};
use crate::frontend::theorems::runs::{lemma_lex_extends_step, lemma_pending_run};

verus! {

// Sources of digits, whitespace and punctuation of the alphabet have only
// classified tokens, unless a line ends in punctuation.

/// A digit, a whitespace character or a punctuation character of the
/// alphabet.
pub open spec fn is_plain_char(c: char) -> bool {
    is_digit_char(c) || is_whitespace_char(c) || in_alphabet(c)
}

/// A source of digits, whitespace and punctuation of the alphabet in which
/// no line ends in punctuation.
pub open spec fn is_plain_source(source: Seq<char>) -> bool {
    &&& forall|i: int| 0 <= i < source.len() ==> is_plain_char(#[trigger] source[i])
    &&& forall|i: int|
        0 < i < source.len() && #[trigger] source[i] == '\n' ==> !is_punctuation_char(
            source[i - 1],
        )
}

spec fn classified(st: ScanState) -> bool {
    &&& forall|k: int| 0 <= k < st.output.len() ==> !is_undefined((#[trigger] st.output[k]).kind)
    &&& st.current.kind == TokenKind::Undefined ==> st.current.text.len() == 0
    &&& st.current.kind == TokenKind::Undefined || st.current.kind == TokenKind::LiteralInteger
        || st.current.kind == TokenKind::UndefinedPunctuation
    &&& st.current.kind == TokenKind::UndefinedPunctuation ==> forall|i: int|
        0 <= i < st.current.text.len() ==> in_alphabet(#[trigger] st.current.text[i])
}

proof fn lemma_step_classified(st: ScanState, c: char)
    requires
        classified(st),
        is_plain_char(c) || c == '\0',
        c == '\n' ==> st.current.kind != TokenKind::UndefinedPunctuation,
    ensures
        c != '\0' ==> classified(step(st, c)),
        forall|k: int|
            0 <= k < step(st, c).output.len() ==> !is_undefined(
                (#[trigger] step(st, c).output[k]).kind,
            ),
{
    if c != '\n' {
        if in_alphabet(c) {
            lemma_alphabet_is_single(seq![c]);
        }
        let a = split_pending(st, c);
        if st.current.kind == TokenKind::UndefinedPunctuation && !is_punctuation_char(c) {
            lemma_split_known(st.current, 0, st.line, st.ch);
        }
        assert(classified(a));
        let b = end_of_input(a, c);
        assert(classified(b));
        let d = classify(b, c);
        assert(classified(d));
        if c != '\0' {
            assert(classified(consume(d, c)));
        }
    }
}

proof fn lemma_scan_classified(source: Seq<char>, n: int)
    requires
        is_plain_source(source),
        0 <= n <= source.len(),
    ensures
        classified(scan(source.take(n))),
    decreases n,
{
    if n > 0 {
        lemma_scan_classified(source, n - 1);
        lemma_pending_run(source, n - 1);
        let c = source[n - 1];
        assert(source.take(n - 1).push(c) =~= source.take(n));
        lemma_scan_push(source.take(n - 1), c);
        assert(is_plain_char(c));
        if in_alphabet(c) {
            lemma_alphabet_is_single(seq![c]);
        }
        lemma_step_classified(scan(source.take(n - 1)), c);
    }
}

/// A source of digits, whitespace and punctuation of the alphabet, in which
/// no line ends in punctuation, has only classified tokens.
pub proof fn lemma_plain_source_is_classified(source: Seq<char>)
    requires
        is_plain_source(source),
    ensures
        forall|k: int|
            0 <= k < lex(source).len() ==> !is_undefined((#[trigger] lex(source)[k]).kind),
{
    lemma_scan_classified(source, source.len() as int);
    lemma_pending_run(source, source.len() as int);
    assert(source.take(source.len() as int) =~= source);
    lemma_scan_push(source, '\0');
    lemma_step_classified(scan(source), '\0');
}

/// A line that ends in punctuation gives an unclassified token, whatever
/// else the source holds.
pub proof fn lemma_punctuation_before_newline(source: Seq<char>, i: int)
    requires
        0 <= i,
        i + 1 < source.len(),
        is_punctuation_char(source[i]),
        source[i + 1] == '\n',
    ensures
        exists|k: int|
            0 <= k < lex(source).len() && (#[trigger] lex(source)[k]).kind
                == TokenKind::UndefinedPunctuation,
{
    lemma_pending_run(source, i + 1);
    let st = scan(source.take(i + 1));
    let after = step(st, '\n');
    lemma_lex_extends_step(source, i + 1);
    let k = after.output.len() - 1;
    assert(after.output[k] == st.current);
    assert(lex(source)[k] == after.output[k]);
}

} // verus!
