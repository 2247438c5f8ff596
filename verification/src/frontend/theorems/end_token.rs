use vstd::prelude::*;
use crate::frontend::lexer::{
    classify, consume, flush, lemma_scan_push, lex, longest_match, scan, split_pending,
    split_punctuation, step, Lexeme, ScanState, TokenKind,
};
use crate::frontend::theorems::alphabet::{lemma_alphabet_is_single, lemma_longest_match_is_match};

verus! {

// A source without the end marker has exactly one `EOF` token.

spec fn without_eof(st: ScanState) -> bool {
    &&& st.current.kind != TokenKind::EOF
    &&& forall|k: int| 0 <= k < st.output.len() ==> (#[trigger] st.output[k]).kind != TokenKind::EOF
}

proof fn lemma_split_without_eof(pending: Lexeme, from: int, line: nat, ch: nat)
    requires
        pending.kind != TokenKind::EOF,
    ensures
        forall|k: int|
            0 <= k < split_punctuation(pending, from, line, ch).len() ==> (
            #[trigger] split_punctuation(pending, from, line, ch)[k]).kind != TokenKind::EOF,
    decreases pending.text.len() - from,
{
    let n = longest_match(pending.text, from);
    if 0 <= from < pending.text.len() && 0 < n && n <= pending.text.len() - from {
        lemma_longest_match_is_match(pending.text, from, pending.text.len() - from);
        lemma_alphabet_is_single(pending.text.subrange(from, from + n));
        lemma_split_without_eof(pending, from + n, line, ch);
    }
}

proof fn lemma_step_without_eof(st: ScanState, c: char)
    requires
        without_eof(st),
        c != '\0',
    ensures
        without_eof(step(st, c)),
{
    if c != '\n' {
        lemma_split_without_eof(st.current, 0, st.line, st.ch);
        let a = split_pending(st, c);
        assert(without_eof(a));
        let d = classify(a, c);
        assert(without_eof(d));
        assert(without_eof(consume(d, c)));
    }
}

proof fn lemma_scan_without_eof(text: Seq<char>)
    requires
        forall|i: int| 0 <= i < text.len() ==> #[trigger] text[i] != '\0',
    ensures
        without_eof(scan(text)),
    decreases text.len(),
{
    if text.len() > 0 {
        lemma_scan_without_eof(text.drop_last());
        lemma_step_without_eof(scan(text.drop_last()), text.last());
    }
}

/// A source that does not hold the end marker itself has exactly one `EOF`
/// token, the last one.
pub proof fn lemma_one_eof(source: Seq<char>)
    requires
        forall|i: int| 0 <= i < source.len() ==> #[trigger] source[i] != '\0',
    ensures
        forall|k: int|
            0 <= k < lex(source).len() - 1 ==> (#[trigger] lex(source)[k]).kind != TokenKind::EOF,
{
    lemma_scan_without_eof(source);
    lemma_scan_push(source, '\0');
    let st = scan(source);
    lemma_split_without_eof(st.current, 0, st.line, st.ch);
    let a = split_pending(st, '\0');
    assert(without_eof(a));
    let flushed = flush(a);
    assert(without_eof(flushed));
    assert(lex(source).len() == flushed.output.len() + 1);
    assert forall|k: int| 0 <= k < lex(source).len() - 1 implies (#[trigger] lex(
        source,
    )[k]).kind != TokenKind::EOF by {
        assert(lex(source)[k] == flushed.output[k]);
    }
}

} // verus!
