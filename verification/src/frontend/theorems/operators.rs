use vstd::prelude::*;
use crate::frontend::lexer::{
    initial_state, lemma_scan_push, lex, longest_match, punctuation_kind, scan,
    split_punctuation, Lexeme, TokenKind,
};
use crate::frontend::theorems::alphabet::{
    in_alphabet, lemma_alphabet_is_single, lemma_longest_match_single,
};
use crate::frontend::theorems::literals::one_pending;

verus! {

// Sources that are one run of punctuation of the alphabet: maximal munch
// gives one token for each character.

/// The token of the character at index `i` of a run of punctuation that
/// starts at column `column` of `line`.
pub open spec fn operator_token(run: Seq<char>, i: int, line: nat, column: nat) -> Lexeme {
    Lexeme {
        kind: punctuation_kind(seq![run[i]]).unwrap(),
        text: seq![run[i]],
        line,
        ch: (column + i) as nat,
    }
}

/// A run of punctuation of the alphabet splits into one token for each
/// character, each one column after the other.
pub proof fn lemma_split_all_known(pending: Lexeme, from: int, line: nat, ch: nat)
    requires
        0 <= from <= pending.text.len(),
        pending.text.len() <= ch,
        forall|i: int| from <= i < pending.text.len() ==> in_alphabet(#[trigger] pending.text[i]),
    ensures
        split_punctuation(pending, from, line, ch).len() == pending.text.len() - from,
        forall|j: int|
            0 <= j < pending.text.len() - from ==> #[trigger] split_punctuation(
                pending,
                from,
                line,
                ch,
            )[j] == operator_token(
                pending.text,
                from + j,
                line,
                (ch - pending.text.len()) as nat,
            ),
    decreases pending.text.len() - from,
{
    let text = pending.text;
    let all = split_punctuation(pending, from, line, ch);
    if from < text.len() {
        lemma_longest_match_single(text, from, text.len() - from);
        assert(in_alphabet(text[from]));
        assert(longest_match(text, from) == 1);
        assert(text.subrange(from, from + 1) =~= seq![text[from]]);
        let rest = split_punctuation(pending, from + 1, line, ch);
        assert(all == seq![all[0]] + rest);
        lemma_split_all_known(pending, from + 1, line, ch);
        assert forall|j: int| 0 <= j < text.len() - from implies #[trigger] all[j]
            == operator_token(text, from + j, line, (ch - text.len()) as nat) by {
            if j > 0 {
                assert(all[j] == rest[j - 1]);
            }
        }
    }
}

proof fn lemma_scan_operators(run: Seq<char>)
    requires
        run.len() > 0,
        forall|i: int| 0 <= i < run.len() ==> in_alphabet(#[trigger] run[i]),
    ensures
        scan(run) == one_pending(TokenKind::UndefinedPunctuation, run),
    decreases run.len(),
{
    let front = run.drop_last();
    let c = run.last();
    assert(in_alphabet(c));
    lemma_alphabet_is_single(seq![c]);
    assert(front.push(c) =~= run);
    lemma_scan_push(front, c);
    if front.len() > 0 {
        assert(forall|i: int| 0 <= i < front.len() ==> front[i] == run[i]);
        lemma_scan_operators(front);
    } else {
        assert(scan(front) == initial_state());
    }
    assert(scan(run).current.text =~= run);
    assert(scan(run).output =~= Seq::<Lexeme>::empty());
}

/// A source that is one run of punctuation of the alphabet has one token
/// for each character, at the column of the character, and the `EOF` token
/// after them.
pub proof fn lemma_operator_source(run: Seq<char>)
    requires
        run.len() > 0,
        forall|i: int| 0 <= i < run.len() ==> in_alphabet(#[trigger] run[i]),
    ensures
        lex(run).len() == run.len() + 1,
        forall|i: int| 0 <= i < run.len() ==> #[trigger] lex(run)[i] == operator_token(run, i, 1, 1),
        lex(run)[run.len() as int] == (Lexeme {
            kind: TokenKind::EOF,
            text: seq!['\0'],
            line: 1,
            ch: run.len() + 1,
        }),
{
    lemma_scan_operators(run);
    lemma_scan_push(run, '\0');
    let st = scan(run);
    lemma_split_all_known(st.current, 0, st.line, st.ch);
    let pieces = split_punctuation(st.current, 0, st.line, st.ch);
    assert(lex(run) =~= pieces.push(
        Lexeme { kind: TokenKind::EOF, text: seq!['\0'], line: 1, ch: run.len() + 1 },
    ));
    assert forall|i: int| 0 <= i < run.len() implies #[trigger] lex(run)[i] == operator_token(
        run,
        i,
        1,
        1,
    ) by {
        assert(lex(run)[i] == pieces[i]);
    }
}

} // verus!
