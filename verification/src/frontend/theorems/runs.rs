use vstd::prelude::*;
use crate::frontend::lexer::{
    classify, consume, end_of_input, is_punctuation_char, lemma_scan_push, lex, scan,
    split_pending, step, well_formed, Lexeme, ScanState, TokenKind,
};

verus! {

// What the scanner holds while a run of punctuation is pending, and that
// what it has emitted stays.

/// What the scanner holds after the first `n` characters of `source`, as far
/// as punctuation goes: a run of punctuation is pending exactly when the
/// last character was punctuation, and it is then the longest run of
/// punctuation that ends there.
pub open spec fn pending_run(source: Seq<char>, n: int) -> bool {
    let st = scan(source.take(n));
    let start = n - st.current.text.len();
    &&& well_formed(st)
    &&& st.current.kind == TokenKind::UndefinedPunctuation <==> n > 0 && is_punctuation_char(
        source[n - 1],
    )
    &&& st.current.kind == TokenKind::UndefinedPunctuation ==> {
        &&& 0 <= start < n
        &&& st.current.text == source.subrange(start, n)
        &&& forall|i: int| start <= i < n ==> is_punctuation_char(#[trigger] source[i])
        &&& start > 0 ==> !is_punctuation_char(source[start - 1])
    }
}

/// After any number of characters the scanner holds a pending run as
/// [`pending_run`] says.
pub proof fn lemma_pending_run(source: Seq<char>, n: int)
    requires
        0 <= n <= source.len(),
    ensures
        pending_run(source, n),
    decreases n,
{
    if n > 0 {
        lemma_pending_run(source, n - 1);
        let before = scan(source.take(n - 1));
        let c = source[n - 1];
        assert(source.take(n - 1).push(c) =~= source.take(n));
        lemma_scan_push(source.take(n - 1), c);
        let after = step(before, c);
        assert(after == scan(source.take(n)));
        if c != '\n' && is_punctuation_char(c) {
            if before.current.kind == TokenKind::UndefinedPunctuation {
                let start = n - 1 - before.current.text.len();
                assert(after.current.text =~= source.subrange(start, n));
            } else {
                assert(after.current.text =~= source.subrange(n - 1, n));
            }
        }
    }
}

/// The sequence `later` starts with the sequence `earlier`.
pub open spec fn extends(later: Seq<Lexeme>, earlier: Seq<Lexeme>) -> bool {
    &&& earlier.len() <= later.len()
    &&& forall|k: int| 0 <= k < earlier.len() ==> #[trigger] later[k] == earlier[k]
}

/// A step only adds to what has been emitted; a step that is no newline
/// adds to what the split of the pending run has emitted.
pub proof fn lemma_step_extends(st: ScanState, c: char)
    ensures
        extends(step(st, c).output, st.output),
        c != '\n' ==> extends(step(st, c).output, split_pending(st, c).output),
{
    if c != '\n' {
        let a = split_pending(st, c);
        assert(extends(a.output, st.output));
        let b = end_of_input(a, c);
        assert(extends(b.output, a.output));
        let d = classify(b, c);
        assert(extends(d.output, b.output));
        assert(extends(consume(d, c).output, d.output));
    }
}

/// What has been emitted stays: the tokens after the first `m` characters
/// are the first tokens after the first `n`, for `m <= n`.
proof fn lemma_scan_extends(text: Seq<char>, m: int, n: int)
    requires
        0 <= m <= n <= text.len(),
    ensures
        extends(scan(text.take(n)).output, scan(text.take(m)).output),
    decreases n - m,
{
    if m < n {
        lemma_scan_extends(text, m, n - 1);
        assert(text.take(n - 1).push(text[n - 1]) =~= text.take(n));
        lemma_scan_push(text.take(n - 1), text[n - 1]);
        lemma_step_extends(scan(text.take(n - 1)), text[n - 1]);
    }
}

/// The tokens after one more step are among the tokens of the source.
pub proof fn lemma_lex_extends_step(source: Seq<char>, n: int)
    requires
        0 <= n <= source.len(),
    ensures
        extends(lex(source), step(scan(source.take(n)), source.push('\0')[n]).output),
{
    let full = source.push('\0');
    assert(full.take(n) =~= source.take(n));
    assert(full.take(n).push(full[n]) =~= full.take(n + 1));
    lemma_scan_push(full.take(n), full[n]);
    lemma_scan_extends(full, n + 1, full.len() as int);
    assert(full.take(full.len() as int) =~= full);
}

} // verus!
