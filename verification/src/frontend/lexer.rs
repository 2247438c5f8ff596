use vstd::prelude::*;
use vstd::string::StringExecFns;
use crate::frontend::number::{decimal_text, push_decimal};

verus! {

/// The classification of a token.
///
/// `Undefined` is the kind of a token that has not been classified yet and
/// `UndefinedPunctuation` the kind of a run of punctuation that has not been
/// split yet; either one in a token sequence marks text the scanner could
/// not classify.
#[derive(Clone, Copy, Debug, PartialEq, Eq, Hash, Structural)]
pub enum TokenKind {
    LiteralInteger,
    LiteralFloat,
    PunOperatorPlus,
    PunOperatorMinus,
    PunOperatorMultiply,
    PunOperatorDivide,
    PunParenOpen,
    PunParenClose,
    Semicolon,
    EOF,
    Undefined,
    UndefinedPunctuation,
}

/// The kinds of text that the scanner could not classify.
pub open spec fn is_undefined(kind: TokenKind) -> bool {
    kind == TokenKind::Undefined || kind == TokenKind::UndefinedPunctuation
}

/// The kinds of the numeric literals.
pub open spec fn is_literal(kind: TokenKind) -> bool {
    kind == TokenKind::LiteralInteger || kind == TokenKind::LiteralFloat
}

/// A position in the source: line and column, both counted from 1.
#[derive(Clone, Copy, Debug, PartialEq, Eq, Structural)]
pub struct Location {
    pub line: u32,
    pub ch: u32,
}

/// A position as it is shown to the user.
pub open spec fn location_text(line: nat, ch: nat) -> Seq<char> {
    "(at line: "@ + decimal_text(line) + ", ch: "@ + decimal_text(ch) + ")"@
}

impl Location {
    /// The position at the given line and column.
    pub fn new(line: u32, ch: u32) -> (location: Location)
        ensures
            location.line == line,
            location.ch == ch,
    {
        Location { line, ch }
    }

    /// The position as it is shown to the user.
    pub fn render(&self) -> (text: String)
        ensures
            text@ == location_text(self.line as nat, self.ch as nat),
    {
        let mut text = "(at line: ".to_owned();
        push_decimal(&mut text, self.line);
        text.append(", ch: ");
        push_decimal(&mut text, self.ch);
        text.append(")");
        text
    }
}

/// A classified piece of source text together with the place it starts at.
#[derive(Debug)]
pub struct Token {
    pub kind: TokenKind,
    pub value: String,
    pub location: Location,
}

/// The mathematical content of a [`Token`].
pub struct Lexeme {
    pub kind: TokenKind,
    pub text: Seq<char>,
    pub line: nat,
    pub ch: nat,
}

impl View for Token {
    type V = Lexeme;

    open spec fn view(&self) -> Lexeme {
        Lexeme {
            kind: self.kind,
            text: self.value@,
            line: self.location.line as nat,
            ch: self.location.ch as nat,
        }
    }
}

/// The contents of a token sequence.
pub open spec fn lexemes(tokens: Seq<Token>) -> Seq<Lexeme> {
    tokens.map_values(|t: Token| t@)
}

/// The name of a token kind.
pub open spec fn kind_name(kind: TokenKind) -> Seq<char> {
    match kind {
        TokenKind::LiteralInteger => "LiteralInteger"@,
        TokenKind::LiteralFloat => "LiteralFloat"@,
        TokenKind::PunOperatorPlus => "PunOperatorPlus"@,
        TokenKind::PunOperatorMinus => "PunOperatorMinus"@,
        TokenKind::PunOperatorMultiply => "PunOperatorMultiply"@,
        TokenKind::PunOperatorDivide => "PunOperatorDivide"@,
        TokenKind::PunParenOpen => "PunParenOpen"@,
        TokenKind::PunParenClose => "PunParenClose"@,
        TokenKind::Semicolon => "Semicolon"@,
        TokenKind::EOF => "EOF"@,
        TokenKind::Undefined => "Undefined"@,
        TokenKind::UndefinedPunctuation => "UndefinedPunctuation"@,
    }
}

impl TokenKind {
    /// The name of the kind.
    pub fn name(&self) -> (name: &'static str)
        ensures
            name@ == kind_name(*self),
    {
        match self {
            TokenKind::LiteralInteger => "LiteralInteger",
            TokenKind::LiteralFloat => "LiteralFloat",
            TokenKind::PunOperatorPlus => "PunOperatorPlus",
            TokenKind::PunOperatorMinus => "PunOperatorMinus",
            TokenKind::PunOperatorMultiply => "PunOperatorMultiply",
            TokenKind::PunOperatorDivide => "PunOperatorDivide",
            TokenKind::PunParenOpen => "PunParenOpen",
            TokenKind::PunParenClose => "PunParenClose",
            TokenKind::Semicolon => "Semicolon",
            TokenKind::EOF => "EOF",
            TokenKind::Undefined => "Undefined",
            TokenKind::UndefinedPunctuation => "UndefinedPunctuation",
        }
    }
}

/// A token as it is shown to the user: its place, its text and its kind.
pub open spec fn lexeme_text(token: Lexeme) -> Seq<char> {
    "token "@ + location_text(token.line, token.ch) + " | value: "@ + token.text + " | kind: "@
        + kind_name(token.kind)
}

impl Token {
    /// The token as it is shown to the user.
    pub fn render(&self) -> (text: String)
        ensures
            text@ == lexeme_text(self@),
    {
        let mut text = "token ".to_owned();
        let place = self.location.render();
        text.append(place.as_str());
        text.append(" | value: ");
        text.append(self.value.as_str());
        text.append(" | kind: ");
        text.append(self.kind.name());
        text
    }

    /// A token of the given kind and text that starts at the given line and
    /// column.
    pub fn new(kind: TokenKind, value: &str, line: u32, ch: u32) -> (token: Token)
        ensures
            token@ == (Lexeme { kind, text: value@, line: line as nat, ch: ch as nat }),
    {
        Token { kind, value: value.to_owned(), location: Location::new(line, ch) }
    }

    /// An unclassified token without text.
    pub fn empty(line: u32, ch: u32) -> (token: Token)
        ensures
            token@ == blank(line as nat, ch as nat),
    {
        Token { kind: TokenKind::Undefined, value: String::new(), location: Location::new(line, ch) }
    }
}

// ---------------------------------------------------------------------------
// Character classes
// ---------------------------------------------------------------------------

/// The decimal digits `0` to `9`.
pub open spec fn is_digit_char(c: char) -> bool {
    '0' <= c && c <= '9'
}

/// The characters with the Unicode property `White_Space`.
pub open spec fn is_whitespace_char(c: char) -> bool {
    ||| c == ' '
    ||| ('\u{9}' <= c && c <= '\u{d}')
    ||| c == '\u{85}'
    ||| c == '\u{a0}'
    ||| c == '\u{1680}'
    ||| ('\u{2000}' <= c && c <= '\u{200a}')
    ||| c == '\u{2028}'
    ||| c == '\u{2029}'
    ||| c == '\u{202f}'
    ||| c == '\u{205f}'
    ||| c == '\u{3000}'
}

/// The ASCII punctuation characters: the four ranges `!`..`/`, `:`..`@`,
/// `[`..`` ` `` and `{`..`~`.
pub open spec fn is_ascii_punctuation_char(c: char) -> bool {
    ||| ('!' <= c && c <= '/')
    ||| (':' <= c && c <= '@')
    ||| ('[' <= c && c <= '`')
    ||| ('{' <= c && c <= '~')
}

/// What the scanner treats as punctuation: ASCII punctuation except the dot,
/// which belongs to numbers.
pub open spec fn is_punctuation_char(c: char) -> bool {
    c != '.' && is_ascii_punctuation_char(c)
}

/// Decides whether a character is a decimal digit.
pub fn is_digit(c: char) -> (r: bool)
    ensures
        r == is_digit_char(c),
{
    '0' <= c && c <= '9'
}

/// Decides whether a character is whitespace.
pub fn is_whitespace(c: char) -> (r: bool)
    ensures
        r == is_whitespace_char(c),
{
    c == ' ' || ('\u{9}' <= c && c <= '\u{d}') || c == '\u{85}' || c == '\u{a0}' || c == '\u{1680}'
        || ('\u{2000}' <= c && c <= '\u{200a}') || c == '\u{2028}' || c == '\u{2029}' || c
        == '\u{202f}' || c == '\u{205f}' || c == '\u{3000}'
}

/// Decides whether the scanner treats a character as punctuation.
pub fn is_punctuation(ch: char) -> (r: bool)
    ensures
        r == is_punctuation_char(ch),
{
    ch != '.' && (('!' <= ch && ch <= '/') || (':' <= ch && ch <= '@') || ('[' <= ch && ch <= '`')
        || ('{' <= ch && ch <= '~'))
}

// ---------------------------------------------------------------------------
// The punctuation alphabet and maximal munch
// ---------------------------------------------------------------------------

/// The punctuation alphabet: the token kind that a piece of text names, if
/// it names one.
pub open spec fn punctuation_kind(text: Seq<char>) -> Option<TokenKind> {
    if text == seq!['+'] {
        Some(TokenKind::PunOperatorPlus)
    } else if text == seq!['-'] {
        Some(TokenKind::PunOperatorMinus)
    } else if text == seq!['*'] {
        Some(TokenKind::PunOperatorMultiply)
    } else if text == seq!['/'] {
        Some(TokenKind::PunOperatorDivide)
    } else if text == seq!['('] {
        Some(TokenKind::PunParenOpen)
    } else if text == seq![')'] {
        Some(TokenKind::PunParenClose)
    } else if text == seq![';'] {
        Some(TokenKind::Semicolon)
    } else {
        None
    }
}

/// The length of the longest piece of `buffer` that starts at `from`, is at
/// most `limit` characters long and is in the punctuation alphabet; 0 if
/// there is none.
pub open spec fn longest_match_within(buffer: Seq<char>, from: int, limit: int) -> int
    decreases limit,
{
    if limit <= 0 {
        0
    } else if punctuation_kind(buffer.subrange(from, from + limit)) is Some {
        limit
    } else {
        longest_match_within(buffer, from, limit - 1)
    }
}

/// The length of the longest piece of `buffer` that starts at `from` and is
/// in the punctuation alphabet; 0 if there is none.
pub open spec fn longest_match(buffer: Seq<char>, from: int) -> int {
    longest_match_within(buffer, from, buffer.len() - from)
}

/// The tokens that a run of punctuation starting at column `ch -
/// pending.text.len()` of `line` splits into from index `from` on: the
/// longest piece in the alphabet, again and again; where no piece matches,
/// the pending token itself, whole and unclassified, ends the split.
pub open spec fn split_punctuation(pending: Lexeme, from: int, line: nat, ch: nat) -> Seq<Lexeme>
    decreases pending.text.len() - from,
{
    let n = longest_match(pending.text, from);
    if from < 0 || from >= pending.text.len() {
        Seq::empty()
    } else if 0 < n && n <= pending.text.len() - from {
        seq![
            Lexeme {
                kind: punctuation_kind(pending.text.subrange(from, from + n)).unwrap(),
                text: pending.text.subrange(from, from + n),
                line,
                ch: (ch - pending.text.len() + from) as nat,
            },
        ] + split_punctuation(pending, from + n, line, ch)
    } else {
        seq![pending]
    }
}

// ---------------------------------------------------------------------------
// The scanner as a state machine
// ---------------------------------------------------------------------------

/// The scanner's state between two characters.
pub struct ScanState {
    /// Line of the next character.
    pub line: nat,
    /// Column of the next character.
    pub ch: nat,
    /// The token being accumulated.
    pub current: Lexeme,
    /// The tokens emitted so far.
    pub output: Seq<Lexeme>,
}

/// An unclassified token without text.
pub open spec fn blank(line: nat, ch: nat) -> Lexeme {
    Lexeme { kind: TokenKind::Undefined, text: Seq::empty(), line, ch }
}

/// The state before the first character.
pub open spec fn initial_state() -> ScanState {
    ScanState { line: 1, ch: 1, current: blank(1, 1), output: Seq::empty() }
}

/// Emits the pending token if it has any text, and starts a new one at the
/// current position.
pub open spec fn flush(st: ScanState) -> ScanState {
    ScanState {
        current: blank(st.line, st.ch),
        output: if st.current.text.len() > 0 {
            st.output.push(st.current)
        } else {
            st.output
        },
        ..st
    }
}

/// A pending run of punctuation ends before a character that is no
/// punctuation: the run is split into tokens.
pub open spec fn split_pending(st: ScanState, c: char) -> ScanState {
    if st.current.kind == TokenKind::UndefinedPunctuation && !is_punctuation_char(c) {
        ScanState {
            current: blank(st.line, st.ch),
            output: st.output + split_punctuation(st.current, 0, st.line, st.ch),
            ..st
        }
    } else {
        st
    }
}

/// The end marker `\0` emits the pending token and an `EOF` token.
pub open spec fn end_of_input(st: ScanState, c: char) -> ScanState {
    if c == '\0' {
        let flushed = flush(st);
        ScanState {
            output: flushed.output.push(
                Lexeme { kind: TokenKind::EOF, text: seq!['\0'], line: st.line, ch: st.ch },
            ),
            ..flushed
        }
    } else {
        st
    }
}

/// The effect of a character on the kind of the pending token: a digit makes
/// an integer unless a float is pending, a dot turns an integer or an empty
/// token into a float, and punctuation starts a new run.
pub open spec fn classify(st: ScanState, c: char) -> ScanState {
    if is_digit_char(c) && st.current.kind != TokenKind::LiteralFloat {
        ScanState { current: Lexeme { kind: TokenKind::LiteralInteger, ..st.current }, ..st }
    } else if c == '.' {
        if st.current.kind == TokenKind::LiteralInteger || st.current.text.len() == 0 {
            ScanState { current: Lexeme { kind: TokenKind::LiteralFloat, ..st.current }, ..st }
        } else {
            st
        }
    } else if is_punctuation_char(c) && st.current.kind != TokenKind::UndefinedPunctuation {
        let flushed = flush(st);
        ScanState {
            current: Lexeme { kind: TokenKind::UndefinedPunctuation, ..flushed.current },
            ..flushed
        }
    } else {
        st
    }
}

/// The character is consumed: the column advances, whitespace ends the
/// pending token and any other character joins it.
pub open spec fn consume(st: ScanState, c: char) -> ScanState {
    let moved = ScanState { ch: st.ch + 1, ..st };
    if is_whitespace_char(c) {
        flush(moved)
    } else {
        ScanState { current: Lexeme { text: moved.current.text.push(c), ..moved.current }, ..moved }
    }
}

/// The scanner's reaction to one character.
pub open spec fn step(st: ScanState, c: char) -> ScanState {
    if c == '\n' {
        flush(ScanState { line: st.line + 1, ch: 1, ..st })
    } else {
        consume(classify(end_of_input(split_pending(st, c), c), c), c)
    }
}

/// The state after scanning `text` from the initial state.
pub open spec fn scan(text: Seq<char>) -> ScanState
    decreases text.len(),
{
    if text.len() == 0 {
        initial_state()
    } else {
        step(scan(text.drop_last()), text.last())
    }
}

/// The token sequence of a source text: what the scanner has emitted after
/// the text and the end marker `\0`.
pub open spec fn lex(source: Seq<char>) -> Seq<Lexeme> {
    scan(source.push('\0')).output
}

/// What holds of the scanner's state between any two characters: the pending
/// token starts on the current line, and its text reaches up to the current
/// column.
pub open spec fn well_formed(st: ScanState) -> bool {
    &&& st.line >= 1
    &&& st.current.line == st.line
    &&& st.current.ch >= 1
    &&& st.current.ch + st.current.text.len() == st.ch
}

/// A step keeps the state well formed and moves the position by at most
/// one line or one column.
pub proof fn lemma_step_well_formed(st: ScanState, c: char)
    requires
        well_formed(st),
    ensures
        well_formed(step(st, c)),
        step(st, c).line <= st.line + 1,
        step(st, c).ch <= st.ch + 1,
{
}

/// The state after any text is well formed, and its line and column are at
/// most one more than the length of the text.
pub proof fn lemma_scan_well_formed(text: Seq<char>)
    ensures
        well_formed(scan(text)),
        scan(text).line <= text.len() + 1,
        scan(text).ch <= text.len() + 1,
    decreases text.len(),
{
    if text.len() > 0 {
        lemma_scan_well_formed(text.drop_last());
        lemma_step_well_formed(scan(text.drop_last()), text.last());
    }
}

/// Scanning one more character is one more step.
pub proof fn lemma_scan_push(text: Seq<char>, c: char)
    ensures
        scan(text.push(c)) == step(scan(text), c),
{
    assert(text.push(c).drop_last() =~= text);
}

/// The token sequence of every source ends with an `EOF` token, which
/// stands where the source ends.
pub proof fn lemma_lex_ends_with_eof(source: Seq<char>)
    ensures
        lex(source).len() > 0,
        lex(source).last() == (Lexeme {
            kind: TokenKind::EOF,
            text: seq!['\0'],
            line: scan(source).line,
            ch: scan(source).ch,
        }),
{
    lemma_scan_push(source, '\0');
}

// ---------------------------------------------------------------------------
// The executable scanner
// ---------------------------------------------------------------------------

/// Appends a character to a string.
///
/// Trusted: calls `String::push` of the standard library, which appends the
/// given character to the end of the string and changes nothing else.
#[verifier::external_body]
pub(crate) fn push_char(text: &mut String, c: char)
    ensures
        final(text)@ == old(text)@.push(c),
{
    text.push(c)
}

/// The characters of a string, in order.
pub fn chars_of(text: &str) -> (chars: Vec<char>)
    ensures
        chars@ == text@,
{
    let mut chars: Vec<char> = Vec::new();
    for c in it: text.chars()
        invariant
            it.seq() == text@,
            chars@ == it.seq().take(it.index()),
    {
        chars.push(c);
        assert(chars@ =~= it.seq().take(it.index() + 1));
    }
    assert(chars@ =~= text@);
    chars
}

/// Looks a piece of text up in the punctuation alphabet.
pub fn lookup_punctuation(text: &str) -> (kind: Option<TokenKind>)
    ensures
        kind == punctuation_kind(text@),
{
    if text.unicode_len() != 1 {
        return None;
    }
    let c = text.get_char(0);
    assert(text@ =~= seq![c]);
    if c == '+' {
        Some(TokenKind::PunOperatorPlus)
    } else if c == '-' {
        Some(TokenKind::PunOperatorMinus)
    } else if c == '*' {
        Some(TokenKind::PunOperatorMultiply)
    } else if c == '/' {
        Some(TokenKind::PunOperatorDivide)
    } else if c == '(' {
        Some(TokenKind::PunParenOpen)
    } else if c == ')' {
        Some(TokenKind::PunParenClose)
    } else if c == ';' {
        Some(TokenKind::Semicolon)
    } else {
        None
    }
}

/// Maximal munch: extends a piece of `buffer` from `from` to the end of the
/// buffer and remembers the longest one that is in the punctuation alphabet.
fn longest_punctuation(buffer: &Vec<char>, from: usize) -> (found: Option<(usize, TokenKind, String)>)
    requires
        from <= buffer.len(),
    ensures
        match found {
            Some((n, kind, text)) => {
                &&& n == longest_match(buffer@, from as int)
                &&& 0 < n <= buffer.len() - from
                &&& text@ == buffer@.subrange(from as int, from + n)
                &&& punctuation_kind(text@) == Some(kind)
            },
            None => longest_match(buffer@, from as int) == 0,
        },
{
    let mut found: Option<(usize, TokenKind, String)> = None;
    let mut piece = String::new();
    let mut end: usize = from;
    assert(piece@ =~= buffer@.subrange(from as int, end as int));
    while end < buffer.len()
        invariant
            from <= end <= buffer.len(),
            piece@ == buffer@.subrange(from as int, end as int),
            match found {
                Some((n, kind, text)) => {
                    &&& n == longest_match_within(buffer@, from as int, end - from)
                    &&& 0 < n <= end - from
                    &&& text@ == buffer@.subrange(from as int, from + n)
                    &&& punctuation_kind(text@) == Some(kind)
                },
                None => longest_match_within(buffer@, from as int, end - from) == 0,
            },
        decreases buffer.len() - end,
    {
        push_char(&mut piece, buffer[end]);
        end = end + 1;
        assert(piece@ =~= buffer@.subrange(from as int, end as int));
        match lookup_punctuation(piece.as_str()) {
            Some(kind) => {
                found = Some((end - from, kind, piece.clone()));
            },
            None => {},
        }
    }
    found
}

/// The scanner: position, pending token and the tokens emitted so far.
struct Scanner {
    line: u32,
    ch: u32,
    current: Token,
    output: Vec<Token>,
}

impl View for Scanner {
    type V = ScanState;

    closed spec fn view(&self) -> ScanState {
        ScanState {
            line: self.line as nat,
            ch: self.ch as nat,
            current: self.current@,
            output: lexemes(self.output@),
        }
    }
}

impl Scanner {
    fn new() -> (scanner: Scanner)
        ensures
            scanner@ == initial_state(),
    {
        let scanner = Scanner { line: 1, ch: 1, current: Token::empty(1, 1), output: Vec::new() };
        assert(lexemes(scanner.output@) =~= Seq::empty());
        scanner
    }

    /// Appends a token to the output.
    fn emit(&mut self, token: Token)
        ensures
            final(self)@ == (ScanState { output: old(self)@.output.push(token@), ..old(self)@ }),
    {
        self.output.push(token);
        assert(lexemes(self.output@) =~= lexemes(old(self).output@).push(token@));
    }

    /// A copy of the pending token.
    fn pending(&self) -> (token: Token)
        ensures
            token@ == self@.current,
    {
        Token {
            kind: self.current.kind,
            value: self.current.value.clone(),
            location: self.current.location,
        }
    }

    fn flush(&mut self)
        ensures
            final(self)@ == flush(old(self)@),
    {
        if !self.current.value.as_str().is_empty() {
            let token = self.pending();
            self.emit(token);
        }
        self.current = Token::empty(self.line, self.ch);
    }

    fn split_pending(&mut self)
        requires
            well_formed(old(self)@),
        ensures
            final(self)@ == (ScanState {
                current: blank(old(self)@.line, old(self)@.ch),
                output: old(self)@.output + split_punctuation(
                    old(self)@.current,
                    0,
                    old(self)@.line,
                    old(self)@.ch,
                ),
                ..old(self)@
            }),
    {
        let buffer = chars_of(self.current.value.as_str());
        let len = buffer.len();
        let ghost start = self@;
        let mut from: usize = 0;
        assert(start.output + split_punctuation(start.current, 0, start.line, start.ch)
            =~= lexemes(self.output@) + split_punctuation(start.current, 0, start.line, start.ch));
        while from < len
            invariant
                from <= len,
                len == buffer.len(),
                buffer@ == start.current.text,
                well_formed(start),
                self.line == start.line,
                self.ch == start.ch,
                self.current@ == start.current,
                lexemes(self.output@) + split_punctuation(
                    start.current,
                    from as int,
                    start.line,
                    start.ch,
                ) == start.output + split_punctuation(start.current, 0, start.line, start.ch),
            decreases len - from,
        {
            let ghost emitted = lexemes(self.output@);
            let ghost rest = split_punctuation(start.current, from as int, start.line, start.ch);
            match longest_punctuation(&buffer, from) {
                Some((n, kind, text)) => {
                    let column = self.ch - ((len - from) as u32);
                    let token = Token { kind, value: text, location: Location::new(self.line, column) };
                    self.emit(token);
                    from = from + n;
                    assert(lexemes(self.output@) + split_punctuation(
                        start.current,
                        from as int,
                        start.line,
                        start.ch,
                    ) =~= emitted + rest);
                },
                None => {
                    let token = self.pending();
                    self.emit(token);
                    from = len;
                    assert(lexemes(self.output@) + split_punctuation(
                        start.current,
                        from as int,
                        start.line,
                        start.ch,
                    ) =~= emitted + rest);
                },
            }
        }
        self.current = Token::empty(self.line, self.ch);
        assert(lexemes(self.output@) =~= lexemes(self.output@) + split_punctuation(
            start.current,
            from as int,
            start.line,
            start.ch,
        ));
    }

    fn step(&mut self, c: char)
        requires
            well_formed(old(self)@),
            old(self).line < u32::MAX,
            old(self).ch < u32::MAX,
        ensures
            final(self)@ == step(old(self)@, c),
    {
        if c == '\n' {
            self.line = self.line + 1;
            self.ch = 1;
            self.flush();
            return ;
        }
        if self.current.kind == TokenKind::UndefinedPunctuation && !is_punctuation(c) {
            self.split_pending();
        }
        if c == '\0' {
            self.flush();
            proof {
                reveal_strlit("\0");
            }
            let end = Token::new(TokenKind::EOF, "\0", self.line, self.ch);
            assert(end@.text =~= seq!['\0']);
            self.emit(end);
        }
        if is_digit(c) && self.current.kind != TokenKind::LiteralFloat {
            self.current.kind = TokenKind::LiteralInteger;
        } else if c == '.' {
            if self.current.kind == TokenKind::LiteralInteger
                || self.current.value.as_str().is_empty() {
                self.current.kind = TokenKind::LiteralFloat;
            }
        } else if is_punctuation(c) && self.current.kind != TokenKind::UndefinedPunctuation {
            self.flush();
            self.current.kind = TokenKind::UndefinedPunctuation;
        }
        self.ch = self.ch + 1;
        if is_whitespace(c) {
            self.flush();
            return ;
        }
        push_char(&mut self.current.value, c);
    }
}

/// The longest source, in characters, whose columns and lines fit a
/// [`Location`].
pub const MAX_SOURCE_CHARS: u32 = 4294967293;

/// Turns a source text into its tokens; the last one is the `EOF` token.
///
/// The source may hold at most [`MAX_SOURCE_CHARS`] characters, so that
/// every line and column fits a [`Location`].
pub fn tokenize(source: &String) -> (tokens: Vec<Token>)
    requires
        source@.len() <= MAX_SOURCE_CHARS,
    ensures
        lexemes(tokens@) == lex(source@),
        tokens@.len() > 0,
        tokens@.last().kind == TokenKind::EOF,
{
    let mut scanner = Scanner::new();
    for c in it: source.as_str().chars()
        invariant
            it.seq() == source@,
            source@.len() <= MAX_SOURCE_CHARS,
            scanner@ == scan(source@.take(it.index())),
    {
        proof {
            lemma_scan_well_formed(source@.take(it.index()));
            lemma_scan_push(source@.take(it.index()), c);
            assert(source@.take(it.index()).push(c) =~= source@.take(it.index() + 1));
        }
        scanner.step(c);
    }
    proof {
        assert(source@.take(source@.len() as int) =~= source@);
        lemma_scan_well_formed(source@);
        lemma_scan_push(source@, '\0');
    }
    scanner.step('\0');
    proof {
        lemma_lex_ends_with_eof(source@);
        assert(lexemes(scanner.output@).last() == scanner.output@.last()@);
    }
    scanner.output
}

/// Turns a source text into its tokens, unless the source is longer than
/// [`MAX_SOURCE_CHARS`] characters.
pub fn try_tokenize(source: &String) -> (tokens: Option<Vec<Token>>)
    ensures
        tokens is Some <==> source@.len() <= MAX_SOURCE_CHARS,
        tokens matches Some(t) ==> lexemes(t@) == lex(source@),
{
    if source.as_str().unicode_len() > MAX_SOURCE_CHARS as usize {
        None
    } else {
        Some(tokenize(source))
    }
}

} // verus!
