use vstd::prelude::*;
use crate::frontend::lexer::{
    classify, end_of_input, flush, is_digit_char, is_punctuation_char, is_whitespace_char,
    lemma_scan_push, lex, longest_match, punctuation_kind, scan, split_pending,
    split_punctuation, step, well_formed, Lexeme, ScanState, TokenKind,
};
use crate::frontend::theorems::alphabet::{
    first_unknown, in_alphabet, lemma_alphabet_is_single, lemma_first_unknown,
    lemma_longest_match_single,
};
use crate::frontend::theorems::runs::{
    lemma_lex_extends_step, lemma_pending_run, lemma_step_extends, pending_run,
};

verus! {

// Token locations never decrease, unless a run of punctuation is emitted
// once more after the tokens of its first characters.

/// The token does not start after the given place.
pub open spec fn not_after(token: Lexeme, line: nat, ch: nat) -> bool {
    token.line < line || (token.line == line && token.ch <= ch)
}

/// No token starts before an earlier one.
pub open spec fn ordered(tokens: Seq<Lexeme>) -> bool {
    forall|i: int, j: int|
        0 <= i <= j < tokens.len() ==> not_after(
            #[trigger] tokens[i],
            (#[trigger] tokens[j]).line,
            tokens[j].ch,
        )
}

/// `source[at]` is punctuation outside the alphabet, and the run of
/// punctuation that holds it starts at `start` with two or more characters
/// of the alphabet before `at`.
pub open spec fn late_unknown(source: Seq<char>, start: int, at: int) -> bool {
    &&& 0 <= start
    &&& start + 2 <= at < source.len()
    &&& start > 0 ==> !is_punctuation_char(source[start - 1])
    &&& forall|i: int| start <= i < at ==> in_alphabet(#[trigger] source[i])
    &&& is_punctuation_char(source[at])
    &&& !in_alphabet(source[at])
}

/// The run of punctuation that holds `source[at]` reaches the end of its
/// line.
pub open spec fn run_ends_line(source: Seq<char>, at: int) -> bool {
    exists|end: int|
        at < end < source.len() && #[trigger] source[end] == '\n' && forall|i: int|
            at < i < end ==> is_punctuation_char(#[trigger] source[i])
}

/// The sources whose token locations never decrease: a run of punctuation
/// that is split does not hold a character outside the alphabet after two
/// or more of the alphabet. (Such a run gives a token for each of its first
/// characters and then the whole run once more, from its start.)
pub open spec fn splits_in_order(source: Seq<char>) -> bool {
    forall|start: int, at: int| #[trigger]
        late_unknown(source, start, at) ==> run_ends_line(source, at)
}

/// A text of punctuation in which a character outside the alphabet, if
/// there is one, is the first or the second character.
spec fn neat(text: Seq<char>) -> bool {
    first_unknown(text, 0) == text.len() || first_unknown(text, 0) <= 1
}

proof fn lemma_split_ordered(pending: Lexeme, from: int, line: nat, ch: nat)
    requires
        0 <= from <= pending.text.len(),
        pending.line == line,
        pending.ch + pending.text.len() == ch,
        first_unknown(pending.text, from) == pending.text.len() || first_unknown(
            pending.text,
            from,
        ) <= 1,
    ensures
        ordered(split_punctuation(pending, from, line, ch)),
        forall|k: int|
            0 <= k < split_punctuation(pending, from, line, ch).len() ==> {
                let token = #[trigger] split_punctuation(pending, from, line, ch)[k];
                &&& token.line == line
                &&& token.ch <= ch
                &&& pending.ch <= token.ch
                &&& first_unknown(pending.text, from) == pending.text.len() ==> pending.ch + from
                    <= token.ch
            },
    decreases pending.text.len() - from,
{
    let text = pending.text;
    let all = split_punctuation(pending, from, line, ch);
    if from < text.len() {
        lemma_longest_match_single(text, from, text.len() - from);
        lemma_first_unknown(text, from);
        if in_alphabet(text[from]) {
            assert(longest_match(text, from) == 1);
            let piece = Lexeme {
                kind: punctuation_kind(text.subrange(from, from + 1)).unwrap(),
                text: text.subrange(from, from + 1),
                line,
                ch: (ch - text.len() + from) as nat,
            };
            let rest = split_punctuation(pending, from + 1, line, ch);
            assert(all == seq![piece] + rest);
            assert(first_unknown(text, from) == first_unknown(text, from + 1));
            lemma_split_ordered(pending, from + 1, line, ch);
            assert(forall|k: int| 0 < k < all.len() ==> all[k] == rest[k - 1]);
            assert(all[0] == piece);
            assert forall|i: int, j: int| 0 <= i <= j < all.len() implies not_after(
                #[trigger] all[i],
                (#[trigger] all[j]).line,
                all[j].ch,
            ) by {
                if i > 0 {
                    assert(all[i] == rest[i - 1]);
                    assert(all[j] == rest[j - 1]);
                } else if j > 0 {
                    assert(all[j] == rest[j - 1]);
                }
            }
        } else {
            assert(longest_match(text, from) == 0);
            assert(all == seq![pending]);
        }
    }
}

/// The tokens emitted so far are in order, and none starts after the
/// pending token.
spec fn in_order(st: ScanState) -> bool {
    &&& ordered(st.output)
    &&& forall|k: int|
        0 <= k < st.output.len() ==> not_after(#[trigger] st.output[k], st.line, st.current.ch)
}

proof fn lemma_flush_in_order(st: ScanState)
    requires
        st.line >= st.current.line,
        st.current.line == st.line ==> st.current.ch <= st.ch,
        ordered(st.output),
        forall|k: int|
            0 <= k < st.output.len() ==> not_after(
                #[trigger] st.output[k],
                st.current.line,
                st.current.ch,
            ),
    ensures
        in_order(flush(st)),
{
    let after = flush(st);
    assert forall|i: int, j: int| 0 <= i <= j < after.output.len() implies not_after(
        #[trigger] after.output[i],
        (#[trigger] after.output[j]).line,
        after.output[j].ch,
    ) by {
        if j < st.output.len() {
            assert(after.output[i] == st.output[i]);
            assert(after.output[j] == st.output[j]);
        } else if i < st.output.len() {
            assert(after.output[i] == st.output[i]);
        }
    }
    assert forall|k: int| 0 <= k < after.output.len() implies not_after(
        #[trigger] after.output[k],
        after.line,
        after.current.ch,
    ) by {
        if k < st.output.len() {
            assert(after.output[k] == st.output[k]);
        }
    }
}

proof fn lemma_split_pending_in_order(st: ScanState, c: char)
    requires
        well_formed(st),
        in_order(st),
        st.current.kind == TokenKind::UndefinedPunctuation && !is_punctuation_char(c) ==> neat(
            st.current.text,
        ),
    ensures
        in_order(split_pending(st, c)),
        well_formed(split_pending(st, c)),
{
    if st.current.kind == TokenKind::UndefinedPunctuation && !is_punctuation_char(c) {
        let pieces = split_punctuation(st.current, 0, st.line, st.ch);
        lemma_split_ordered(st.current, 0, st.line, st.ch);
        let after = split_pending(st, c);
        assert(after.output == st.output + pieces);
        assert forall|k: int| 0 <= k < after.output.len() implies not_after(
            #[trigger] after.output[k],
            after.line,
            after.current.ch,
        ) by {
            if k < st.output.len() {
                assert(after.output[k] == st.output[k]);
            } else {
                assert(after.output[k] == pieces[k - st.output.len()]);
            }
        }
        assert forall|i: int, j: int| 0 <= i <= j < after.output.len() implies not_after(
            #[trigger] after.output[i],
            (#[trigger] after.output[j]).line,
            after.output[j].ch,
        ) by {
            if j < st.output.len() {
                assert(after.output[i] == st.output[i]);
                assert(after.output[j] == st.output[j]);
            } else if i < st.output.len() {
                assert(after.output[i] == st.output[i]);
                assert(after.output[j] == pieces[j - st.output.len()]);
            } else {
                assert(after.output[i] == pieces[i - st.output.len()]);
                assert(after.output[j] == pieces[j - st.output.len()]);
            }
        }
    }
}

proof fn lemma_step_in_order(st: ScanState, c: char)
    requires
        well_formed(st),
        in_order(st),
        c != '\n' && st.current.kind == TokenKind::UndefinedPunctuation && !is_punctuation_char(c)
            ==> neat(st.current.text),
    ensures
        in_order(step(st, c)),
{
    if c == '\n' {
        lemma_flush_in_order(ScanState { line: st.line + 1, ch: 1, ..st });
    } else {
        let a = split_pending(st, c);
        lemma_split_pending_in_order(st, c);
        let b = end_of_input(a, c);
        if c == '\0' {
            lemma_flush_in_order(a);
            let flushed = flush(a);
            let end = Lexeme { kind: TokenKind::EOF, text: seq!['\0'], line: a.line, ch: a.ch };
            assert(b.output == flushed.output.push(end));
            assert forall|i: int, j: int| 0 <= i <= j < b.output.len() implies not_after(
                #[trigger] b.output[i],
                (#[trigger] b.output[j]).line,
                b.output[j].ch,
            ) by {
                if j < flushed.output.len() {
                    assert(b.output[i] == flushed.output[i]);
                    assert(b.output[j] == flushed.output[j]);
                } else if i < flushed.output.len() {
                    assert(b.output[i] == flushed.output[i]);
                }
            }
            assert forall|k: int| 0 <= k < b.output.len() implies not_after(
                #[trigger] b.output[k],
                b.line,
                b.current.ch,
            ) by {
                if k < flushed.output.len() {
                    assert(b.output[k] == flushed.output[k]);
                }
            }
        }
        assert(in_order(b));
        assert(well_formed(b));
        let d = classify(b, c);
        if is_punctuation_char(c) && b.current.kind != TokenKind::UndefinedPunctuation
            && !is_digit_char(c) {
            lemma_flush_in_order(b);
        }
        assert(in_order(d));
        assert(well_formed(d));
        let moved = ScanState { ch: d.ch + 1, ..d };
        if is_whitespace_char(c) {
            lemma_flush_in_order(moved);
        }
    }
}

/// A run of punctuation that is split before the character `c`, which
/// follows the first `n` characters of the source or is the end marker
/// after all of them, is neat.
proof fn lemma_run_is_neat(source: Seq<char>, n: int, c: char)
    requires
        splits_in_order(source),
        0 <= n <= source.len(),
        pending_run(source, n),
        n < source.len() ==> c == source[n],
    ensures
        c != '\n' && scan(source.take(n)).current.kind == TokenKind::UndefinedPunctuation
            && !is_punctuation_char(c) ==> neat(scan(source.take(n)).current.text),
{
    let st = scan(source.take(n));
    if c != '\n' && st.current.kind == TokenKind::UndefinedPunctuation && !is_punctuation_char(c) {
        let text = st.current.text;
        let start = n - text.len();
        let k = first_unknown(text, 0);
        lemma_first_unknown(text, 0);
        if k < text.len() && k >= 2 {
            let at = start + k;
            assert(forall|i: int| start <= i < n ==> source[i] == text[i - start]);
            assert(forall|i: int| start <= i < at ==> in_alphabet(#[trigger] source[i])) by {
                assert(forall|i: int|
                    start <= i < at ==> #[trigger] source[i] == text[i - start] && in_alphabet(
                        text[i - start],
                    ));
            }
            assert(late_unknown(source, start, at));
            assert(run_ends_line(source, at));
            let end = choose|end: int|
                at < end < source.len() && #[trigger] source[end] == '\n' && forall|i: int|
                    at < i < end ==> is_punctuation_char(#[trigger] source[i]);
            if end < n {
                assert(is_punctuation_char(source[end]));
            } else if end > n {
                assert(is_punctuation_char(source[n]));
            }
            assert(false);
        }
    }
}

proof fn lemma_scan_in_order(source: Seq<char>, n: int)
    requires
        splits_in_order(source),
        0 <= n <= source.len(),
    ensures
        in_order(scan(source.take(n))),
    decreases n,
{
    if n > 0 {
        lemma_scan_in_order(source, n - 1);
        lemma_pending_run(source, n - 1);
        let c = source[n - 1];
        assert(source.take(n - 1).push(c) =~= source.take(n));
        lemma_scan_push(source.take(n - 1), c);
        lemma_run_is_neat(source, n - 1, c);
        lemma_step_in_order(scan(source.take(n - 1)), c);
    }
}

/// Token locations never decrease, for every source but those in which a
/// run of punctuation is emitted once more after the tokens of its first
/// characters.
pub proof fn lemma_locations_ordered(source: Seq<char>)
    requires
        splits_in_order(source),
    ensures
        ordered(lex(source)),
{
    let n = source.len() as int;
    lemma_scan_in_order(source, n);
    lemma_pending_run(source, n);
    assert(source.take(n) =~= source);
    lemma_scan_push(source, '\0');
    lemma_run_is_neat(source, n, '\0');
    lemma_step_in_order(scan(source), '\0');
}

/// The index at which the run of punctuation that holds index `from` ends.
pub open spec fn run_end(source: Seq<char>, from: int) -> int
    decreases source.len() - from,
{
    if from < 0 || from >= source.len() || !is_punctuation_char(source[from]) {
        from
    } else {
        run_end(source, from + 1)
    }
}

proof fn lemma_run_end(source: Seq<char>, from: int)
    requires
        0 <= from <= source.len(),
    ensures
        from <= run_end(source, from) <= source.len(),
        forall|i: int| from <= i < run_end(source, from) ==> is_punctuation_char(#[trigger] source[i]),
        run_end(source, from) < source.len() ==> !is_punctuation_char(
            source[run_end(source, from)],
        ),
    decreases source.len() - from,
{
    if from < source.len() && is_punctuation_char(source[from]) {
        lemma_run_end(source, from + 1);
    }
}

/// The split of a run that holds a character outside the alphabet: a token
/// for each character before it, each one column after the other, and then
/// the run itself.
proof fn lemma_split_shape(pending: Lexeme, from: int, line: nat, ch: nat)
    requires
        0 <= from <= pending.text.len(),
        pending.text.len() <= ch,
        first_unknown(pending.text, from) < pending.text.len(),
    ensures
        split_punctuation(pending, from, line, ch).len() == first_unknown(pending.text, from) - from
            + 1,
        forall|j: int|
            0 <= j < first_unknown(pending.text, from) - from ==> {
                let token = #[trigger] split_punctuation(pending, from, line, ch)[j];
                token.line == line && token.ch == ch - pending.text.len() + from + j
            },
        split_punctuation(pending, from, line, ch)[first_unknown(pending.text, from) - from]
            == pending,
    decreases pending.text.len() - from,
{
    let text = pending.text;
    let all = split_punctuation(pending, from, line, ch);
    lemma_first_unknown(text, from);
    lemma_longest_match_single(text, from, text.len() - from);
    if in_alphabet(text[from]) {
        assert(longest_match(text, from) == 1);
        let rest = split_punctuation(pending, from + 1, line, ch);
        assert(all == seq![all[0]] + rest);
        assert(first_unknown(text, from) == first_unknown(text, from + 1));
        lemma_split_shape(pending, from + 1, line, ch);
        assert forall|j: int| 0 <= j < first_unknown(text, from) - from implies {
            let token = #[trigger] all[j];
            token.line == line && token.ch == ch - text.len() + from + j
        } by {
            if j > 0 {
                assert(all[j] == rest[j - 1]);
            }
        }
        assert(all[first_unknown(text, from) - from] == rest[first_unknown(text, from) - from
            - 1]);
    } else {
        assert(longest_match(text, from) == 0);
        assert(all == seq![pending]);
    }
}

/// A run of punctuation that is split and holds a character outside the
/// alphabet after two or more of the alphabet puts the locations out of
/// order.
pub proof fn lemma_late_unknown_disorders(source: Seq<char>, start: int, at: int)
    requires
        late_unknown(source, start, at),
        !run_ends_line(source, at),
    ensures
        !ordered(lex(source)),
{
    let end = run_end(source, at);
    lemma_run_end(source, at);
    assert(end > at);
    let full = source.push('\0');
    let c = full[end];
    assert(!is_punctuation_char(c));
    if c == '\n' {
        assert(forall|i: int| at < i < end ==> is_punctuation_char(#[trigger] source[i]));
        assert(source[end] == '\n');
        assert(run_ends_line(source, at));
    }
    assert(forall|i: int| start <= i < at ==> is_punctuation_char(#[trigger] source[i])) by {
        assert forall|i: int| start <= i < at implies is_punctuation_char(
            #[trigger] source[i],
        ) by {
            assert(in_alphabet(source[i]));
            lemma_alphabet_is_single(seq![source[i]]);
        }
    }
    lemma_pending_run(source, end);
    let st = scan(source.take(end));
    let text = st.current.text;
    let first = end - text.len();
    assert(is_punctuation_char(source[end - 1]));
    if first < start {
        assert(is_punctuation_char(source[start - 1]));
    } else if first > start {
        assert(is_punctuation_char(source[first - 1]));
    }
    assert(first == start);
    assert(forall|i: int| 0 <= i < text.len() ==> text[i] == source[start + i]);
    let k = at - start;
    lemma_first_unknown(text, 0);
    assert(first_unknown(text, 0) == k) by {
        let u = first_unknown(text, 0);
        if u < k {
            assert(in_alphabet(source[start + u]));
        } else if u > k {
            assert(in_alphabet(text[k]));
        }
    }
    lemma_split_shape(st.current, 0, st.line, st.ch);
    let pieces = split_punctuation(st.current, 0, st.line, st.ch);
    let emitted = split_pending(st, c).output;
    assert(emitted == st.output + pieces);
    lemma_step_extends(st, c);
    lemma_lex_extends_step(source, end);
    let base = st.output.len() as int;
    let tokens = lex(source);
    assert(tokens[base + 1] == emitted[base + 1]);
    assert(tokens[base + k] == emitted[base + k]);
    assert(emitted[base + 1] == pieces[1]);
    assert(emitted[base + k] == pieces[k]);
    assert(!not_after(tokens[base + 1], tokens[base + k].line, tokens[base + k].ch));
}

} // verus!
