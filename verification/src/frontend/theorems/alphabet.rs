use vstd::prelude::*;
use crate::frontend::lexer::{
    is_punctuation_char, is_undefined, longest_match, longest_match_within, punctuation_kind,
    split_punctuation, Lexeme, TokenKind,
};

verus! {

// The punctuation alphabet holds single characters: what that means for
// the longest match and for the split of a run.

/// The character is one of the punctuation alphabet.
pub open spec fn in_alphabet(c: char) -> bool {
    punctuation_kind(seq![c]) is Some
}

/// Every text of the punctuation alphabet is one punctuation character, and
/// names a kind that is not one of the unclassified ones.
pub proof fn lemma_alphabet_is_single(text: Seq<char>)
    requires
        punctuation_kind(text) is Some,
    ensures
        text.len() == 1,
        text == seq![text[0]],
        is_punctuation_char(text[0]),
        !is_undefined(punctuation_kind(text).unwrap()),
        punctuation_kind(text).unwrap() != TokenKind::EOF,
{
    assert(text =~= seq![text[0]]);
}

/// A longest match that is not 0 is the length of a piece in the alphabet.
pub proof fn lemma_longest_match_is_match(buffer: Seq<char>, from: int, limit: int)
    ensures
        0 <= longest_match_within(buffer, from, limit),
        limit >= 0 ==> longest_match_within(buffer, from, limit) <= limit,
        longest_match_within(buffer, from, limit) > 0 ==> punctuation_kind(
            buffer.subrange(from, from + longest_match_within(buffer, from, limit)),
        ) is Some,
    decreases limit,
{
    if limit > 0 && !(punctuation_kind(buffer.subrange(from, from + limit)) is Some) {
        lemma_longest_match_is_match(buffer, from, limit - 1);
    }
}

/// With an alphabet of single characters the longest match is the next
/// character or nothing.
pub proof fn lemma_longest_match_single(buffer: Seq<char>, from: int, limit: int)
    requires
        0 <= from,
        0 <= limit,
        from + limit <= buffer.len(),
    ensures
        longest_match_within(buffer, from, limit) == if limit >= 1 && in_alphabet(buffer[from]) {
            1int
        } else {
            0int
        },
    decreases limit,
{
    if limit >= 1 {
        lemma_longest_match_single(buffer, from, limit - 1);
        let piece = buffer.subrange(from, from + limit);
        if punctuation_kind(piece) is Some {
            lemma_alphabet_is_single(piece);
        }
        if limit == 1 {
            assert(piece =~= seq![buffer[from]]);
        }
    }
}

/// The index of the first character from `from` on that is not in the
/// alphabet; the length of the text if there is none.
pub open spec fn first_unknown(text: Seq<char>, from: int) -> int
    decreases text.len() - from,
{
    if from < 0 || from >= text.len() {
        text.len() as int
    } else if !in_alphabet(text[from]) {
        from
    } else {
        first_unknown(text, from + 1)
    }
}

/// `first_unknown` is the least index from `from` on whose character is
/// not in the alphabet.
pub proof fn lemma_first_unknown(text: Seq<char>, from: int)
    requires
        0 <= from <= text.len(),
    ensures
        from <= first_unknown(text, from) <= text.len(),
        forall|i: int| from <= i < first_unknown(text, from) ==> in_alphabet(#[trigger] text[i]),
        first_unknown(text, from) < text.len() ==> !in_alphabet(text[first_unknown(text, from)]),
    decreases text.len() - from,
{
    if from < text.len() && in_alphabet(text[from]) {
        lemma_first_unknown(text, from + 1);
    }
}

/// A run of punctuation from the alphabet splits into classified tokens.
pub proof fn lemma_split_known(pending: Lexeme, from: int, line: nat, ch: nat)
    requires
        0 <= from <= pending.text.len(),
        forall|i: int| from <= i < pending.text.len() ==> in_alphabet(#[trigger] pending.text[i]),
    ensures
        forall|k: int|
            0 <= k < split_punctuation(pending, from, line, ch).len() ==> !is_undefined(
                (#[trigger] split_punctuation(pending, from, line, ch)[k]).kind,
            ),
    decreases pending.text.len() - from,
{
    if from < pending.text.len() {
        lemma_longest_match_single(pending.text, from, pending.text.len() - from);
        assert(in_alphabet(pending.text[from]));
        assert(longest_match(pending.text, from) == 1);
        let piece = pending.text.subrange(from, from + 1);
        assert(piece =~= seq![pending.text[from]]);
        lemma_alphabet_is_single(piece);
        lemma_split_known(pending, from + 1, line, ch);
    }
}

} // verus!
