use vstd::prelude::*;
use crate::frontend::lexer::{
    classify, consume, end_of_input, flush, is_digit_char, is_punctuation_char,
    is_whitespace_char, lemma_scan_push, lex, longest_match, scan, split_pending,
    split_punctuation, step, well_formed, Lexeme, ScanState, TokenKind,
};

verus! {

// Every token is a piece of the source and is located where that piece
// starts.

/// The line of the character at index `at`: one more than the number of
/// newlines before it.
pub open spec fn line_at(text: Seq<char>, at: int) -> nat
    decreases at,
{
    if at <= 0 {
        1
    } else if text[at - 1] == '\n' {
        line_at(text, at - 1) + 1
    } else {
        line_at(text, at - 1)
    }
}

/// The column of the character at index `at`: one more than the number of
/// characters between it and the start of its line.
pub open spec fn column_at(text: Seq<char>, at: int) -> nat
    decreases at,
{
    if at <= 0 || text[at - 1] == '\n' {
        1
    } else {
        column_at(text, at - 1) + 1
    }
}

/// The token is the piece of the text that starts at index `at`, and its
/// location is the line and column of that index.
pub open spec fn stands_at(token: Lexeme, text: Seq<char>, at: int) -> bool {
    &&& 0 <= at
    &&& at + token.text.len() <= text.len()
    &&& text.subrange(at, at + token.text.len()) == token.text
    &&& token.line == line_at(text, at)
    &&& token.ch == column_at(text, at)
}

/// The token is a piece of the text and its location is where the piece
/// starts.
pub open spec fn located(token: Lexeme, text: Seq<char>) -> bool {
    exists|at: int| stands_at(token, text, at)
}

proof fn lemma_positions_in_line(text: Seq<char>, a: int, b: int)
    requires
        0 <= a <= b <= text.len(),
        forall|i: int| a <= i < b ==> #[trigger] text[i] != '\n',
    ensures
        line_at(text, b) == line_at(text, a),
        column_at(text, b) == column_at(text, a) + (b - a),
    decreases b - a,
{
    if a < b {
        lemma_positions_in_line(text, a, b - 1);
    }
}

proof fn lemma_split_located(pending: Lexeme, from: int, line: nat, ch: nat, full: Seq<char>, start: int)
    requires
        0 <= from <= pending.text.len(),
        stands_at(pending, full, start),
        forall|i: int| 0 <= i < pending.text.len() ==> #[trigger] pending.text[i] != '\n',
        pending.line == line,
        pending.ch + pending.text.len() == ch,
    ensures
        forall|k: int|
            0 <= k < split_punctuation(pending, from, line, ch).len() ==> located(
                #[trigger] split_punctuation(pending, from, line, ch)[k],
                full,
            ),
    decreases pending.text.len() - from,
{
    let text = pending.text;
    let all = split_punctuation(pending, from, line, ch);
    let n = longest_match(text, from);
    if from < text.len() {
        if 0 < n && n <= text.len() - from {
            let piece = all[0];
            let rest = split_punctuation(pending, from + n, line, ch);
            assert(all == seq![piece] + rest);
            lemma_split_located(pending, from + n, line, ch, full, start);
            assert forall|j: int| start <= j < start + from implies #[trigger] full[j]
                != '\n' by {
                assert(full.subrange(start, start + text.len())[j - start] == full[j]);
                assert(text[j - start] != '\n');
            }
            lemma_positions_in_line(full, start, start + from);
            assert(piece.text =~= full.subrange(start + from, start + from + n));
            assert(stands_at(piece, full, start + from));
            assert forall|k: int| 0 <= k < all.len() implies located(#[trigger] all[k], full) by {
                if k > 0 {
                    assert(all[k] == rest[k - 1]);
                }
            }
        } else {
            assert(all == seq![pending]);
        }
    }
}

/// What the scanner holds after the first `n` characters of `full`: its
/// position is that of index `n`, the pending token is the piece of the text
/// before index `n` that its text makes up, and every token emitted so far
/// is located.
spec fn tracking(st: ScanState, full: Seq<char>, n: int) -> bool {
    &&& well_formed(st)
    &&& st.line == line_at(full, n)
    &&& st.ch == column_at(full, n)
    &&& st.current.text.len() <= n
    &&& stands_at(st.current, full, n - st.current.text.len())
    &&& forall|i: int| 0 <= i < st.current.text.len() ==> #[trigger] st.current.text[i] != '\n'
    &&& forall|k: int| 0 <= k < st.output.len() ==> located(#[trigger] st.output[k], full)
}

proof fn lemma_flush_tracking(st: ScanState, full: Seq<char>, n: int, start: int)
    requires
        0 <= n <= full.len(),
        st.line >= 1,
        st.ch >= 1,
        st.line == line_at(full, n),
        st.ch == column_at(full, n),
        st.current.text.len() > 0 ==> stands_at(st.current, full, start),
        forall|k: int| 0 <= k < st.output.len() ==> located(#[trigger] st.output[k], full),
    ensures
        tracking(flush(st), full, n),
{
    let after = flush(st);
    assert(after.current.text =~= full.subrange(n, n));
    assert(stands_at(after.current, full, n));
    assert forall|k: int| 0 <= k < after.output.len() implies located(
        #[trigger] after.output[k],
        full,
    ) by {
        if k < st.output.len() {
            assert(after.output[k] == st.output[k]);
        }
    }
}

proof fn lemma_step_tracking(st: ScanState, full: Seq<char>, n: int)
    requires
        0 <= n < full.len(),
        tracking(st, full, n),
    ensures
        tracking(step(st, full[n]), full, n + 1),
{
    let c = full[n];
    let start = n - st.current.text.len();
    if c == '\n' {
        lemma_flush_tracking(ScanState { line: st.line + 1, ch: 1, ..st }, full, n + 1, start);
    } else {
        let a = split_pending(st, c);
        if st.current.kind == TokenKind::UndefinedPunctuation && !is_punctuation_char(c) {
            let pieces = split_punctuation(st.current, 0, st.line, st.ch);
            lemma_split_located(st.current, 0, st.line, st.ch, full, start);
            assert(a.current.text =~= full.subrange(n, n));
            assert(stands_at(a.current, full, n));
            assert forall|k: int| 0 <= k < a.output.len() implies located(
                #[trigger] a.output[k],
                full,
            ) by {
                if k < st.output.len() {
                    assert(a.output[k] == st.output[k]);
                } else {
                    assert(a.output[k] == pieces[k - st.output.len()]);
                }
            }
        }
        assert(tracking(a, full, n));
        let b = end_of_input(a, c);
        if c == '\0' {
            let flushed = flush(a);
            lemma_flush_tracking(a, full, n, n - a.current.text.len());
            let end = Lexeme { kind: TokenKind::EOF, text: seq!['\0'], line: a.line, ch: a.ch };
            assert(end.text =~= full.subrange(n, n + 1));
            assert(stands_at(end, full, n));
            assert(b.output == flushed.output.push(end));
            assert forall|k: int| 0 <= k < b.output.len() implies located(
                #[trigger] b.output[k],
                full,
            ) by {
                if k < flushed.output.len() {
                    assert(b.output[k] == flushed.output[k]);
                }
            }
        }
        assert(tracking(b, full, n));
        let d = classify(b, c);
        if is_punctuation_char(c) && b.current.kind != TokenKind::UndefinedPunctuation
            && !is_digit_char(c) {
            lemma_flush_tracking(b, full, n, n - b.current.text.len());
        }
        assert(tracking(d, full, n));
        let moved = ScanState { ch: d.ch + 1, ..d };
        let from = n - d.current.text.len();
        if is_whitespace_char(c) {
            lemma_flush_tracking(moved, full, n + 1, from);
        } else {
            let after = consume(d, c);
            assert(after.current.text =~= full.subrange(from, n + 1));
            assert(stands_at(after.current, full, from));
        }
    }
}

proof fn lemma_scan_tracking(full: Seq<char>, n: int)
    requires
        0 <= n <= full.len(),
    ensures
        tracking(scan(full.take(n)), full, n),
    decreases n,
{
    if n > 0 {
        lemma_scan_tracking(full, n - 1);
        assert(full.take(n - 1).push(full[n - 1]) =~= full.take(n));
        lemma_scan_push(full.take(n - 1), full[n - 1]);
        lemma_step_tracking(scan(full.take(n - 1)), full, n - 1);
    } else {
        let st = scan(full.take(0));
        assert(st.current.text =~= full.subrange(0, 0));
    }
}

/// Every token of a source is a piece of the source, with the end marker
/// after it, and is located where that piece starts.
pub proof fn lemma_tokens_located(source: Seq<char>)
    ensures
        forall|k: int|
            0 <= k < lex(source).len() ==> located(#[trigger] lex(source)[k], source.push('\0')),
{
    let full = source.push('\0');
    lemma_scan_tracking(full, full.len() as int);
    assert(full.take(full.len() as int) =~= full);
}

} // verus!
