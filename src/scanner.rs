//! The scanner: source text to tokens, with line tracking and the elision of
//! whitespace and comments.
use vstd::prelude::*;

use crate::token::{
    digit_prefix, fixed_token, is_digit, string_token, symbol_kind, word_token, Token, TokenKind,
    TokenView,
};

verus! {

/// Whether a character has Unicode's Alphabetic property.
pub uninterp spec fn alphabetic(c: char) -> bool;

/// Whether a character is alphabetic or numeric in Unicode's sense.
pub uninterp spec fn alphanumeric(c: char) -> bool;

/// Relies on `char::is_alphabetic`, which depends on the character alone.
#[verifier::external_body]
fn char_is_alphabetic(c: char) -> (r: bool)
    ensures
        r == alphabetic(c),
{
    c.is_alphabetic()
}

/// Relies on `char::is_alphanumeric`, which depends on the character alone.
#[verifier::external_body]
fn char_is_alphanumeric(c: char) -> (r: bool)
    ensures
        r == alphanumeric(c),
{
    c.is_alphanumeric()
}

/// Relies on `str::chars`, collected into a vector: the characters of `s` in order.
#[verifier::external_body]
fn chars_of(s: &str) -> (r: Vec<char>)
    ensures
        r@ == s@,
{
    s.chars().collect()
}

/// Relies on collecting characters into a `String`: the string of `v[start..end]`.
#[verifier::external_body]
fn string_of(v: &Vec<char>, start: usize, end: usize) -> (r: String)
    requires
        start <= end <= v@.len(),
    ensures
        r@ == v@.subrange(start as int, end as int),
{
    v[start..end].iter().collect()
}

/// A fatal scanning error, with the 1-based line it is reported at.
#[derive(Clone, Copy, PartialEq, Eq, Structural, Debug)]
pub enum ScanError {
    /// A character that starts no token.
    UnexpectedCharacter { character: char, line: usize },
    /// A string literal that reaches the end of the source unclosed.
    UnterminatedString { line: usize },
    /// A string literal that holds a raw newline.
    MultilineString { line: usize },
    /// A digit run immediately followed by an alphabetic character.
    MalformedNumber { line: usize },
    /// A block comment, reported at the line it opened on, that is not
    /// closed before the end of the source.
    UnterminatedComment { line: usize },
}

/// Source text together with the character classes that the scanner reads.
pub struct Text {
    pub chars: Seq<char>,
    pub alphabetic: Seq<bool>,
    pub alphanumeric: Seq<bool>,
}

impl Text {
    pub open spec fn wf(self) -> bool {
        &&& self.alphabetic.len() == self.chars.len()
        &&& self.alphanumeric.len() == self.chars.len()
    }

    pub open spec fn len(self) -> int {
        self.chars.len() as int
    }

    /// Whether position `i` holds the character `c`.
    pub open spec fn has(self, i: int, c: char) -> bool {
        0 <= i < self.len() && self.chars[i] == c
    }

    pub open spec fn starts_word(self, i: int) -> bool {
        self.alphabetic[i] || self.chars[i] == '_'
    }

    pub open spec fn continues_word(self, i: int) -> bool {
        self.alphanumeric[i] || self.chars[i] == '_'
    }
}

/// The text of a source string, classified character by character.
pub open spec fn classify(chars: Seq<char>) -> Text {
    Text {
        chars,
        alphabetic: chars.map_values(|c: char| alphabetic(c)),
        alphanumeric: chars.map_values(|c: char| alphanumeric(c)),
    }
}

/// The number of word characters from position `i` on.
pub open spec fn word_run(t: Text, i: int) -> nat
    decreases t.len() - i,
{
    if 0 <= i < t.len() && t.continues_word(i) {
        1 + word_run(t, i + 1)
    } else {
        0
    }
}

/// The number of ASCII digits from position `i` on.
pub open spec fn digit_run(chars: Seq<char>, i: int) -> nat
    decreases chars.len() - i,
{
    if 0 <= i < chars.len() && is_digit(chars[i]) {
        1 + digit_run(chars, i + 1)
    } else {
        0
    }
}

/// The number of characters from position `i` up to the next newline.
pub open spec fn line_run(chars: Seq<char>, i: int) -> nat
    decreases chars.len() - i,
{
    if 0 <= i < chars.len() && chars[i] != '\n' {
        1 + line_run(chars, i + 1)
    } else {
        0
    }
}

/// The number of characters from position `i` up to the next quote or newline.
pub open spec fn string_run(chars: Seq<char>, i: int) -> nat
    decreases chars.len() - i,
{
    if 0 <= i < chars.len() && chars[i] != '"' && chars[i] != '\n' {
        1 + string_run(chars, i + 1)
    } else {
        0
    }
}

pub open spec fn shifted(r: Option<(nat, nat)>, by: nat) -> Option<(nat, nat)> {
    match r {
        Some((k, l)) => Some((k + by, l)),
        None => None,
    }
}

/// Reading the body of a block comment from position `i`, `depth` comments
/// deep, on line `line`: the number of characters up to and including the
/// delimiter that closes the outermost one, and the line reached there; `None`
/// when the source ends first.
pub open spec fn comment_body(chars: Seq<char>, i: int, depth: nat, line: nat) -> Option<(nat, nat)>
    decreases chars.len() - i,
{
    if i < 0 || i >= chars.len() {
        None
    } else if chars[i] == '\n' {
        shifted(comment_body(chars, i + 1, depth, line + 1), 1)
    } else if chars[i] == '*' && i + 1 < chars.len() && chars[i + 1] == '/' {
        if depth <= 1 {
            Some((2, line))
        } else {
            shifted(comment_body(chars, i + 2, (depth - 1) as nat, line), 2)
        }
    } else if chars[i] == '/' && i + 1 < chars.len() && chars[i + 1] == '*' {
        shifted(comment_body(chars, i + 2, depth + 1, line), 2)
    } else {
        shifted(comment_body(chars, i + 1, depth, line), 1)
    }
}

/// One step of the scanner: the token it emits, if any, how many characters
/// it consumes and the line it ends on.
pub struct Step {
    pub token: Option<TokenView>,
    pub advance: nat,
    pub line: nat,
}

pub open spec fn skip_step(advance: nat, line: nat) -> Step {
    Step { token: None, advance, line }
}

pub open spec fn symbol_step(t: Text, pos: int, width: nat, line: nat) -> Step {
    let lexeme = t.chars.subrange(pos, pos + width);
    Step { token: Some(fixed_token(symbol_kind(lexeme)->0, lexeme, line)), advance: width, line }
}

pub open spec fn number_step(t: Text, pos: int, line: nat) -> Result<Step, ScanError> {
    let whole = digit_run(t.chars, pos);
    let end = pos + whole;
    if end < t.len() && t.alphabetic[end] {
        Err(ScanError::MalformedNumber { line: line as usize })
    } else if t.has(end, '.') && end + 1 < t.len() && is_digit(t.chars[end + 1]) {
        let frac = digit_run(t.chars, end + 1);
        let fend = end + 1 + frac;
        if fend < t.len() && t.alphabetic[fend] {
            Err(ScanError::MalformedNumber { line: line as usize })
        } else {
            Ok(
                Step {
                    token: Some(fixed_token(TokenKind::Number, t.chars.subrange(pos, fend), line)),
                    advance: whole + 1 + frac,
                    line,
                },
            )
        }
    } else {
        Ok(
            Step {
                token: Some(fixed_token(TokenKind::Number, t.chars.subrange(pos, end), line)),
                advance: whole,
                line,
            },
        )
    }
}

pub open spec fn word_step(t: Text, pos: int, line: nat) -> Step {
    let n = 1 + word_run(t, pos + 1);
    Step { token: Some(word_token(t.chars.subrange(pos, pos + n), line)), advance: n, line }
}

pub open spec fn string_step(t: Text, pos: int, line: nat) -> Result<Step, ScanError> {
    let body = string_run(t.chars, pos + 1);
    let close = pos + 1 + body;
    if close >= t.len() {
        Err(ScanError::UnterminatedString { line: line as usize })
    } else if t.chars[close] == '\n' {
        Err(ScanError::MultilineString { line: line as usize })
    } else {
        Ok(
            Step {
                token: Some(string_token(t.chars.subrange(pos, close + 1), line)),
                advance: body + 2,
                line,
            },
        )
    }
}

pub open spec fn block_comment_step(t: Text, pos: int, line: nat) -> Result<Step, ScanError> {
    match comment_body(t.chars, pos + 2, 1, line) {
        Some((k, l)) => Ok(skip_step(2 + k, l)),
        None => Err(ScanError::UnterminatedComment { line: line as usize }),
    }
}

pub open spec fn is_single_symbol(c: char) -> bool {
    c == '(' || c == ')' || c == '{' || c == '}' || c == '[' || c == ']' || c == ',' || c == '.'
        || c == '-' || c == '+' || c == ';' || c == '*'
}

/// The characters that form a two-character operator with a following `=`.
pub open spec fn pairs_with_equal(c: char) -> bool {
    c == '!' || c == '=' || c == '<' || c == '>'
}

/// What the scanner does at position `pos` of `t` on line `line`.
pub open spec fn lex_step(t: Text, pos: int, line: nat) -> Result<Step, ScanError> {
    let c = t.chars[pos];
    if is_single_symbol(c) {
        Ok(symbol_step(t, pos, 1, line))
    } else if c == ' ' || c == '\r' || c == '\t' {
        Ok(skip_step(1, line))
    } else if pairs_with_equal(c) {
        Ok(symbol_step(t, pos, if t.has(pos + 1, '=') { 2 } else { 1 }, line))
    } else if c == '"' {
        string_step(t, pos, line)
    } else if c == '/' {
        if t.has(pos + 1, '/') {
            Ok(skip_step(line_run(t.chars, pos), line))
        } else if t.has(pos + 1, '*') {
            block_comment_step(t, pos, line)
        } else {
            Ok(symbol_step(t, pos, 1, line))
        }
    } else if c == '\n' {
        Ok(skip_step(1, line + 1))
    } else if is_digit(c) {
        number_step(t, pos, line)
    } else if t.starts_word(pos) {
        Ok(word_step(t, pos, line))
    } else {
        Err(ScanError::UnexpectedCharacter { character: c, line: line as usize })
    }
}

pub open spec fn prepend(tok: Option<TokenView>, r: Result<Seq<TokenView>, ScanError>) -> Result<
    Seq<TokenView>,
    ScanError,
> {
    match (tok, r) {
        (Some(x), Ok(ts)) => Ok(seq![x] + ts),
        _ => r,
    }
}

/// The tokens of `t` from position `pos` on, starting on line `line`, or the
/// first error met.
pub open spec fn lex_from(t: Text, pos: int, line: nat) -> Result<Seq<TokenView>, ScanError>
    decreases t.len() - pos,
{
    if pos < 0 || pos >= t.len() {
        Ok(seq![])
    } else {
        match lex_step(t, pos, line) {
            Err(e) => Err(e),
            Ok(s) => if 0 < s.advance && pos + s.advance <= t.len() {
                prepend(s.token, lex_from(t, pos + s.advance, s.line))
            } else {
                Ok(seq![])
            },
        }
    }
}

/// The tokens of a whole text, or its first error.
pub open spec fn lex(t: Text) -> Result<Seq<TokenView>, ScanError> {
    lex_from(t, 0, 1)
}

/// A stretch of source that one step of the scanner consumes, with the token
/// it yields; whitespace and comments yield none.
pub struct Chunk {
    pub text: Seq<char>,
    pub token: Option<TokenView>,
}

/// The chunks that the scanner consumes from position `pos` on, in order, up
/// to the first error.
pub open spec fn chunks_from(t: Text, pos: int, line: nat) -> Seq<Chunk>
    decreases t.len() - pos,
{
    if pos < 0 || pos >= t.len() {
        seq![]
    } else {
        match lex_step(t, pos, line) {
            Err(_) => seq![],
            Ok(s) => if 0 < s.advance && pos + s.advance <= t.len() {
                seq![Chunk { text: t.chars.subrange(pos, pos + s.advance), token: s.token }]
                    + chunks_from(t, pos + s.advance, s.line)
            } else {
                seq![]
            },
        }
    }
}

/// The texts of `cs`, one after the other.
pub open spec fn joined(cs: Seq<Chunk>) -> Seq<char>
    decreases cs.len(),
{
    if cs.len() == 0 {
        seq![]
    } else {
        cs[0].text + joined(cs.drop_first())
    }
}

/// The tokens of `cs`, in order.
pub open spec fn tokens_of(cs: Seq<Chunk>) -> Seq<TokenView>
    decreases cs.len(),
{
    if cs.len() == 0 {
        seq![]
    } else {
        match cs[0].token {
            Some(k) => seq![k] + tokens_of(cs.drop_first()),
            None => tokens_of(cs.drop_first()),
        }
    }
}

/// Text that the scanner drops: one whitespace character or newline, a line
/// comment without its newline, or a block comment with its delimiters.
pub open spec fn elidable(s: Seq<char>) -> bool {
    ||| s.len() == 1 && (s[0] == ' ' || s[0] == '\r' || s[0] == '\t' || s[0] == '\n')
    ||| s.len() >= 2 && s[0] == '/' && s[1] == '/' && forall|i: int|
        0 <= i < s.len() ==> s[i] != '\n'
    ||| s.len() >= 4 && s[0] == '/' && s[1] == '*' && s[s.len() - 2] == '*' && s[s.len() - 1]
        == '/'
}

/// A token's chunk is exactly its lexeme; any other chunk is elidable.
pub open spec fn chunk_sound(c: Chunk) -> bool {
    match c.token {
        Some(k) => k.lexeme == c.text,
        None => elidable(c.text),
    }
}

proof fn lemma_digit_run_bound(chars: Seq<char>, i: int)
    requires
        0 <= i <= chars.len(),
    ensures
        i + digit_run(chars, i) <= chars.len(),
    decreases chars.len() - i,
{
    if i < chars.len() {
        lemma_digit_run_bound(chars, i + 1);
    }
}

proof fn lemma_word_run_bound(t: Text, i: int)
    requires
        0 <= i <= t.len(),
    ensures
        i + word_run(t, i) <= t.len(),
    decreases t.len() - i,
{
    if i < t.len() {
        lemma_word_run_bound(t, i + 1);
    }
}

proof fn lemma_string_run_bound(chars: Seq<char>, i: int)
    requires
        0 <= i <= chars.len(),
    ensures
        i + string_run(chars, i) <= chars.len(),
    decreases chars.len() - i,
{
    if i < chars.len() {
        lemma_string_run_bound(chars, i + 1);
    }
}

/// A line comment stays within its line and the source.
proof fn lemma_line_run(chars: Seq<char>, i: int)
    requires
        0 <= i <= chars.len(),
    ensures
        i + line_run(chars, i) <= chars.len(),
        forall|j: int| i <= j < i + line_run(chars, i) ==> chars[j] != '\n',
    decreases chars.len() - i,
{
    if i < chars.len() {
        lemma_line_run(chars, i + 1);
    }
}

/// A closed block comment ends with its closing delimiter, within the source.
proof fn lemma_comment_body(chars: Seq<char>, i: int, depth: nat, line: nat)
    requires
        0 <= i,
        comment_body(chars, i, depth, line) is Some,
    ensures
        ({
            let (k, _) = comment_body(chars, i, depth, line)->0;
            &&& 2 <= k
            &&& i + k <= chars.len()
            &&& chars[i + k - 2] == '*'
            &&& chars[i + k - 1] == '/'
        }),
    decreases chars.len() - i,
{
    if chars[i] == '\n' {
        lemma_comment_body(chars, i + 1, depth, line + 1);
    } else if chars[i] == '*' && i + 1 < chars.len() && chars[i + 1] == '/' {
        if depth > 1 {
            lemma_comment_body(chars, i + 2, (depth - 1) as nat, line);
        }
    } else if chars[i] == '/' && i + 1 < chars.len() && chars[i + 1] == '*' {
        lemma_comment_body(chars, i + 2, depth + 1, line);
    } else {
        lemma_comment_body(chars, i + 1, depth, line);
    }
}

/// Every successful step consumes at least one character, stays within the
/// source, and yields a sound chunk.
proof fn lemma_step(t: Text, pos: int, line: nat)
    requires
        t.wf(),
        0 <= pos < t.len(),
        lex_step(t, pos, line) is Ok,
    ensures
        ({
            let s = lex_step(t, pos, line)->Ok_0;
            &&& 0 < s.advance
            &&& pos + s.advance <= t.len()
            &&& chunk_sound(Chunk { text: t.chars.subrange(pos, pos + s.advance), token: s.token })
        }),
{
    let c = t.chars[pos];
    let s = lex_step(t, pos, line)->Ok_0;
    let text = t.chars.subrange(pos, pos + s.advance);
    if is_single_symbol(c) || c == ' ' || c == '\r' || c == '\t' || pairs_with_equal(c) {
    } else if c == '"' {
        lemma_string_run_bound(t.chars, pos + 1);
    } else if c == '/' {
        if t.has(pos + 1, '/') {
            lemma_line_run(t.chars, pos);
            assert(line_run(t.chars, pos) >= 2) by {
                reveal_with_fuel(line_run, 2);
            }
            assert forall|i: int| 0 <= i < text.len() implies text[i] != '\n' by {
                assert(text[i] == t.chars[pos + i]);
            }
        } else if t.has(pos + 1, '*') {
            lemma_comment_body(t.chars, pos + 2, 1, line);
        }
    } else if c == '\n' {
    } else if is_digit(c) {
        lemma_digit_run_bound(t.chars, pos);
        let end = pos + digit_run(t.chars, pos);
        if t.has(end, '.') && end + 1 < t.len() && is_digit(t.chars[end + 1]) {
            lemma_digit_run_bound(t.chars, end + 1);
        }
    } else {
        lemma_word_run_bound(t, pos + 1);
    }
}

proof fn lemma_chunks(t: Text, pos: int, line: nat)
    requires
        t.wf(),
        0 <= pos <= t.len(),
        lex_from(t, pos, line) is Ok,
    ensures
        joined(chunks_from(t, pos, line)) == t.chars.subrange(pos, t.len() as int),
        tokens_of(chunks_from(t, pos, line)) == lex_from(t, pos, line)->Ok_0,
        forall|i: int|
            0 <= i < chunks_from(t, pos, line).len() ==> chunk_sound(
                #[trigger] chunks_from(t, pos, line)[i],
            ),
    decreases t.len() - pos,
{
    let cs = chunks_from(t, pos, line);
    if pos < t.len() {
        lemma_step(t, pos, line);
        let s = lex_step(t, pos, line)->Ok_0;
        let next = pos + s.advance;
        lemma_chunks(t, next, s.line);
        let head = Chunk { text: t.chars.subrange(pos, next), token: s.token };
        let rest = chunks_from(t, next, s.line);
        assert(cs.drop_first() =~= rest);
        assert(t.chars.subrange(pos, t.len() as int) =~= head.text + t.chars.subrange(
            next,
            t.len() as int,
        ));
        assert forall|i: int| 0 <= i < cs.len() implies chunk_sound(#[trigger] cs[i]) by {
            if i > 0 {
                assert(cs[i] == rest[i - 1]);
            }
        }
    } else {
        assert(t.chars.subrange(pos, t.len() as int) =~= seq![]);
    }
}

/// Scanning drops and duplicates nothing: the source is the chunks that the
/// scanner consumes, one after the other; the tokens are those of the chunks
/// that yield one, in order, each with the chunk as its lexeme; and every
/// other chunk is whitespace, a newline or a comment.
pub proof fn lemma_scan_covers_source(t: Text)
    requires
        t.wf(),
        lex(t) is Ok,
    ensures
        joined(chunks_from(t, 0, 1)) == t.chars,
        tokens_of(chunks_from(t, 0, 1)) == lex(t)->Ok_0,
        forall|i: int|
            0 <= i < chunks_from(t, 0, 1).len() ==> chunk_sound(#[trigger] chunks_from(t, 0, 1)[i]),
{
    lemma_chunks(t, 0, 1);
    assert(t.chars.subrange(0, t.len() as int) =~= t.chars);
}

/// A string's body ends at a quote or a newline, or at the end of the source.
proof fn lemma_string_run_stop(chars: Seq<char>, i: int)
    requires
        0 <= i <= chars.len(),
    ensures
        i + string_run(chars, i) < chars.len() ==> chars[i + string_run(chars, i)] == '"'
            || chars[i + string_run(chars, i)] == '\n',
    decreases chars.len() - i,
{
    if i < chars.len() {
        lemma_string_run_stop(chars, i + 1);
    }
}

/// The token of a successful step, if any, keeps the token invariant.
proof fn lemma_step_token_wf(t: Text, pos: int, line: nat)
    requires
        t.wf(),
        0 <= pos < t.len(),
        lex_step(t, pos, line) is Ok,
    ensures
        lex_step(t, pos, line)->Ok_0.token matches Some(k) ==> k.wf(),
{
    let c = t.chars[pos];
    if c == '"' {
        lemma_string_run_bound(t.chars, pos + 1);
        lemma_string_run_stop(t.chars, pos + 1);
    } else if is_digit(c) && !is_single_symbol(c) {
        lemma_digit_run_bound(t.chars, pos);
        let whole = digit_run(t.chars, pos) as int;
        let end = pos + whole;
        if t.has(end, '.') && end + 1 < t.len() && is_digit(t.chars[end + 1]) {
            lemma_digit_run_bound(t.chars, end + 1);
            let fend = end + 1 + digit_run(t.chars, end + 1);
            let lexeme = t.chars.subrange(pos, fend);
            lemma_digit_prefix(t.chars, pos, fend);
            lemma_digit_prefix(t.chars, end + 1, fend);
            assert(lexeme.subrange(whole + 1, lexeme.len() as int) =~= t.chars.subrange(
                end + 1,
                fend,
            ));
        } else {
            lemma_digit_prefix(t.chars, pos, end);
        }
    }
}

proof fn lemma_tokens_wf(t: Text, pos: int, line: nat)
    requires
        t.wf(),
        0 <= pos <= t.len(),
        lex_from(t, pos, line) is Ok,
    ensures
        forall|i: int|
            0 <= i < lex_from(t, pos, line)->Ok_0.len() ==> (#[trigger] lex_from(
                t,
                pos,
                line,
            )->Ok_0[i]).wf(),
    decreases t.len() - pos,
{
    if pos < t.len() {
        lemma_step(t, pos, line);
        lemma_step_token_wf(t, pos, line);
        let s = lex_step(t, pos, line)->Ok_0;
        lemma_tokens_wf(t, pos + s.advance, s.line);
        let rest = lex_from(t, pos + s.advance, s.line)->Ok_0;
        let all = lex_from(t, pos, line)->Ok_0;
        assert forall|i: int| 0 <= i < all.len() implies (#[trigger] all[i]).wf() by {
            if s.token is Some && i > 0 {
                assert(all[i] == rest[i - 1]);
            }
        }
    }
}

/// Every token that the scanner yields keeps the token invariant: in
/// particular each operator, punctuation and keyword token has the canonical
/// spelling of its kind as its lexeme.
pub proof fn lemma_scanned_tokens_wf(t: Text)
    requires
        t.wf(),
        lex(t) is Ok,
    ensures
        forall|i: int| 0 <= i < lex(t)->Ok_0.len() ==> (#[trigger] lex(t)->Ok_0[i]).wf(),
{
    lemma_tokens_wf(t, 0, 1);
}

pub open spec fn views(ts: Seq<Token>) -> Seq<TokenView> {
    ts.map_values(|t: Token| t@)
}

pub open spec fn scanned(r: Result<Vec<Token>, ScanError>) -> Result<Seq<TokenView>, ScanError> {
    match r {
        Ok(ts) => Ok(views(ts@)),
        Err(e) => Err(e),
    }
}

pub open spec fn prefixed(done: Seq<TokenView>, r: Result<Seq<TokenView>, ScanError>) -> Result<
    Seq<TokenView>,
    ScanError,
> {
    match r {
        Ok(ts) => Ok(done + ts),
        Err(e) => Err(e),
    }
}

/// The state of a scanner: its text, its cursor and the line the cursor is on.
pub struct ScannerView {
    pub text: Text,
    pub current: nat,
    pub line: nat,
}

impl ScannerView {
    pub open spec fn wf(self) -> bool {
        &&& self.text.wf()
        &&& self.current <= self.text.len()
        &&& 1 <= self.line <= self.current + 1
    }

    /// Well formed, with a text short enough that no count of its
    /// characters or lines overflows.
    pub open spec fn scannable(self) -> bool {
        &&& self.wf()
        &&& self.text.len() < usize::MAX
    }

    /// This state after one step of the scanner that gave `got`, where
    /// `expected` is what the step should give.
    pub open spec fn stepped(
        self,
        next: ScannerView,
        expected: Result<Step, ScanError>,
        got: Result<Option<TokenView>, ScanError>,
    ) -> bool {
        match expected {
            Ok(s) => {
                &&& got == Ok::<Option<TokenView>, ScanError>(s.token)
                &&& next.current == self.current + s.advance
                &&& next.line == s.line
            },
            Err(e) => got == Err::<Option<TokenView>, ScanError>(e),
        }
    }
}

pub open spec fn token_result(r: Result<Token, ScanError>) -> Result<Option<TokenView>, ScanError> {
    match r {
        Ok(t) => Ok(Some(t@)),
        Err(e) => Err(e),
    }
}

pub open spec fn skip_result(r: Result<(), ScanError>) -> Result<Option<TokenView>, ScanError> {
    match r {
        Ok(()) => Ok(None),
        Err(e) => Err(e),
    }
}

pub open spec fn step_result(r: Result<Option<Token>, ScanError>) -> Result<
    Option<TokenView>,
    ScanError,
> {
    match r {
        Ok(Some(t)) => Ok(Some(t@)),
        Ok(None) => Ok(None),
        Err(e) => Err(e),
    }
}

fn is_ascii_digit(c: char) -> (r: bool)
    ensures
        r == is_digit(c),
{
    '0' <= c && c <= '9'
}

proof fn lemma_digit_prefix(chars: Seq<char>, i: int, j: int)
    requires
        0 <= i <= j <= chars.len(),
        i + digit_run(chars, i) <= j,
    ensures
        digit_prefix(chars.subrange(i, j)) == digit_run(chars, i),
    decreases j - i,
{
    let s = chars.subrange(i, j);
    if i < j && is_digit(chars[i]) {
        lemma_digit_prefix(chars, i + 1, j);
        assert(s.drop_first() =~= chars.subrange(i + 1, j));
    }
}

proof fn lemma_views_push(ts: Seq<Token>, t: Token)
    ensures
        views(ts.push(t)) == views(ts).push(t@),
{
    assert(views(ts.push(t)) =~= views(ts).push(t@));
}

/// A scanner over one source text.
pub struct Scanner {
    source: Vec<char>,
    alphabetic: Vec<bool>,
    alphanumeric: Vec<bool>,
    current: usize,
    line: usize,
}

impl View for Scanner {
    type V = ScannerView;

    closed spec fn view(&self) -> ScannerView {
        ScannerView {
            text: Text {
                chars: self.source@,
                alphabetic: self.alphabetic@,
                alphanumeric: self.alphanumeric@,
            },
            current: self.current as nat,
            line: self.line as nat,
        }
    }
}

impl Scanner {
    /// A scanner at the start of `source`, on line 1.
    pub fn from(source: String) -> (r: Scanner)
        ensures
            r@ == (ScannerView { text: classify(source@), current: 0, line: 1 }),
            r@.wf(),
    {
        let chars = chars_of(source.as_str());
        let mut alpha: Vec<bool> = Vec::new();
        let mut alnum: Vec<bool> = Vec::new();
        let mut i: usize = 0;
        while i < chars.len()
            invariant
                i <= chars@.len(),
                alpha@.len() == i,
                alnum@.len() == i,
                forall|j: int| 0 <= j < i ==> alpha@[j] == alphabetic(#[trigger] chars@[j]),
                forall|j: int| 0 <= j < i ==> alnum@[j] == alphanumeric(#[trigger] chars@[j]),
            decreases chars@.len() - i,
        {
            alpha.push(char_is_alphabetic(chars[i]));
            alnum.push(char_is_alphanumeric(chars[i]));
            i = i + 1;
        }
        proof {
            assert(alpha@ =~= chars@.map_values(|c: char| alphabetic(c)));
            assert(alnum@ =~= chars@.map_values(|c: char| alphanumeric(c)));
        }
        Scanner::from_classified(chars, alpha, alnum)
    }

    /// A scanner at the start of `source`, on line 1, where the two vectors
    /// say of each character whether it is alphabetic and whether it is
    /// alphanumeric.
    pub fn from_classified(source: Vec<char>, alphabetic: Vec<bool>, alphanumeric: Vec<bool>) -> (r:
        Scanner)
        requires
            alphabetic@.len() == source@.len(),
            alphanumeric@.len() == source@.len(),
        ensures
            r@ == (ScannerView {
                text: Text {
                    chars: source@,
                    alphabetic: alphabetic@,
                    alphanumeric: alphanumeric@,
                },
                current: 0,
                line: 1,
            }),
            r@.wf(),
    {
        Scanner { source, alphabetic, alphanumeric, current: 0, line: 1 }
    }

    fn get_current_char(&self) -> (r: char)
        requires
            self@.scannable(),
            self@.current < self@.text.len(),
        ensures
            r == self@.text.chars[self@.current as int],
    {
        self.source[self.current]
    }

    fn advance(&mut self)
        requires
            old(self)@.scannable(),
            old(self)@.current < old(self)@.text.len(),
        ensures
            final(self)@ == (ScannerView { current: old(self)@.current + 1, ..old(self)@ }),
    {
        self.current = self.current + 1;
    }

    /// The character after the current one, or `'\0'` where there is none.
    fn peek(&self) -> (r: char)
        requires
            self@.scannable(),
        ensures
            r == if self@.current + 1 < self@.text.len() {
                self@.text.chars[self@.current as int + 1]
            } else {
                '\0'
            },
    {
        if self.current + 1 < self.source.len() {
            self.source[self.current + 1]
        } else {
            '\0'
        }
    }

    fn is_at_end(&self) -> (r: bool)
        requires
            self@.scannable(),
        ensures
            r == (self@.current >= self@.text.len()),
    {
        self.current >= self.source.len()
    }

    fn is_not_at_end(&self) -> (r: bool)
        requires
            self@.scannable(),
        ensures
            r == (self@.current < self@.text.len()),
    {
        self.current < self.source.len()
    }

    fn scan_symbol(&mut self, len: usize) -> (r: Token)
        requires
            old(self)@.scannable(),
            old(self)@.current + len <= old(self)@.text.len(),
            symbol_kind(
                old(self)@.text.chars.subrange(
                    old(self)@.current as int,
                    old(self)@.current + len,
                ),
            ) is Some,
        ensures
            final(self)@ == (ScannerView { current: (old(self)@.current + len) as nat, ..old(self)@ }),
            Some(r@) == symbol_step(
                old(self)@.text,
                old(self)@.current as int,
                len as nat,
                old(self)@.line,
            ).token,
    {
        let start = self.current;
        self.current = self.current + len;
        let lexeme = string_of(&self.source, start, self.current);
        Token::get_token_from_symbol(lexeme.as_str(), self.line)
    }

    fn scan_identifier(&mut self) -> (r: Token)
        requires
            old(self)@.scannable(),
            old(self)@.current < old(self)@.text.len(),
            old(self)@.text.starts_word(old(self)@.current as int),
        ensures
            old(self)@.stepped(
                final(self)@,
                Ok(word_step(old(self)@.text, old(self)@.current as int, old(self)@.line)),
                Ok(Some(r@)),
            ),
            final(self)@.text == old(self)@.text,
            final(self)@.scannable(),
    {
        let ghost t = self@.text;
        let start = self.current;
        self.advance();
        while self.is_not_at_end() && self.is_word_char(self.current)
            invariant
                self@.scannable(),
                self@.text == t,
                self@.line == old(self)@.line,
                start < self@.current,
                word_run(t, start + 1) == (self@.current - start - 1) + word_run(
                    t,
                    self@.current as int,
                ),
            decreases t.len() - self@.current,
        {
            self.advance();
        }
        let lexeme = string_of(&self.source, start, self.current);
        Token::get_token_from_identifier(lexeme.as_str(), self.line)
    }

    /// Moves past the digits at the cursor.
    fn skip_digits(&mut self)
        requires
            old(self)@.scannable(),
        ensures
            final(self)@ == (ScannerView {
                current: old(self)@.current + digit_run(
                    old(self)@.text.chars,
                    old(self)@.current as int,
                ),
                ..old(self)@
            }),
            final(self)@.scannable(),
    {
        let ghost t = self@.text;
        let ghost start = self@.current as int;
        while self.is_not_at_end() && is_ascii_digit(self.get_current_char())
            invariant
                self@.scannable(),
                self@.text == t,
                self@.line == old(self)@.line,
                start <= self@.current,
                digit_run(t.chars, start) == (self@.current - start) + digit_run(
                    t.chars,
                    self@.current as int,
                ),
            decreases t.len() - self@.current,
        {
            self.advance();
        }
    }

    fn scan_number(&mut self) -> (r: Result<Token, ScanError>)
        requires
            old(self)@.scannable(),
            old(self)@.current < old(self)@.text.len(),
            is_digit(old(self)@.text.chars[old(self)@.current as int]),
        ensures
            old(self)@.stepped(
                final(self)@,
                number_step(old(self)@.text, old(self)@.current as int, old(self)@.line),
                token_result(r),
            ),
            final(self)@.text == old(self)@.text,
            final(self)@.scannable(),
    {
        let ghost t = self@.text;
        let start = self.current;
        self.skip_digits();
        let whole_end = self.current;
        if self.is_not_at_end() && self.alphabetic[self.current] {
            return Err(ScanError::MalformedNumber { line: self.line });
        }
        if self.is_not_at_end() && self.get_current_char() == '.' && is_ascii_digit(self.peek()) {
            self.advance();
            self.skip_digits();
            if self.is_not_at_end() && self.alphabetic[self.current] {
                return Err(ScanError::MalformedNumber { line: self.line });
            }
        }
        let lexeme = string_of(&self.source, start, self.current);
        proof {
            let end = self@.current as int;
            lemma_digit_prefix(t.chars, start as int, end);
            if end > whole_end {
                lemma_digit_prefix(t.chars, whole_end + 1, end);
                assert(lexeme@.subrange(whole_end - start + 1, lexeme@.len() as int)
                    =~= t.chars.subrange(whole_end + 1, end));
            }
        }
        Ok(Token::get_token_from_number(lexeme.as_str(), self.line))
    }

    fn scan_string(&mut self) -> (r: Result<Token, ScanError>)
        requires
            old(self)@.scannable(),
            old(self)@.text.has(old(self)@.current as int, '"'),
        ensures
            old(self)@.stepped(
                final(self)@,
                string_step(old(self)@.text, old(self)@.current as int, old(self)@.line),
                token_result(r),
            ),
            final(self)@.text == old(self)@.text,
            final(self)@.scannable(),
    {
        let ghost t = self@.text;
        let start = self.current;
        self.advance();
        while self.is_not_at_end() && self.get_current_char() != '"' && self.get_current_char()
            != '\n'
            invariant
                self@.scannable(),
                self@.text == t,
                self@.line == old(self)@.line,
                start < self@.current,
                string_run(t.chars, start + 1) == (self@.current - start - 1) + string_run(
                    t.chars,
                    self@.current as int,
                ),
            decreases t.len() - self@.current,
        {
            self.advance();
        }
        if self.is_at_end() {
            return Err(ScanError::UnterminatedString { line: self.line });
        }
        if self.get_current_char() == '\n' {
            return Err(ScanError::MultilineString { line: self.line });
        }
        self.advance();
        let lexeme = string_of(&self.source, start, self.current);
        Ok(Token::get_token_from_string(lexeme.as_str(), self.line))
    }

    /// Moves up to the end of the line, leaving the newline to be read.
    fn skip_line_comment(&mut self)
        requires
            old(self)@.scannable(),
        ensures
            final(self)@ == (ScannerView {
                current: old(self)@.current + line_run(
                    old(self)@.text.chars,
                    old(self)@.current as int,
                ),
                ..old(self)@
            }),
            final(self)@.scannable(),
    {
        let ghost t = self@.text;
        let ghost start = self@.current as int;
        while self.is_not_at_end() && self.get_current_char() != '\n'
            invariant
                self@.scannable(),
                self@.text == t,
                self@.line == old(self)@.line,
                start <= self@.current,
                line_run(t.chars, start) == (self@.current - start) + line_run(
                    t.chars,
                    self@.current as int,
                ),
            decreases t.len() - self@.current,
        {
            self.advance();
        }
    }

    /// Moves past a block comment and the comments nested in it, counting
    /// the lines it spans.
    fn skip_block_comment(&mut self) -> (r: Result<(), ScanError>)
        requires
            old(self)@.scannable(),
            old(self)@.text.has(old(self)@.current as int, '/'),
            old(self)@.text.has(old(self)@.current as int + 1, '*'),
        ensures
            old(self)@.stepped(
                final(self)@,
                block_comment_step(old(self)@.text, old(self)@.current as int, old(self)@.line),
                skip_result(r),
            ),
            final(self)@.text == old(self)@.text,
            final(self)@.scannable(),
    {
        let ghost t = self@.text;
        let ghost base = self@.current as int + 2;
        let comment_start_line = self.line;
        self.advance();
        self.advance();
        let mut depth: usize = 1;
        while self.is_not_at_end()
            invariant
                self@.scannable(),
                t == old(self)@.text,
                self@.text == t,
                base == old(self)@.current + 2,
                comment_start_line == old(self)@.line,
                base <= self@.current,
                1 <= depth <= self@.current,
                comment_body(t.chars, base, 1, comment_start_line as nat) == shifted(
                    comment_body(t.chars, self@.current as int, depth as nat, self@.line),
                    (self@.current - base) as nat,
                ),
            decreases t.len() - self@.current,
        {
            let c = self.get_current_char();
            if c == '\n' {
                self.advance();
                self.line = self.line + 1;
            } else if c == '*' && self.peek() == '/' {
                let ghost at = self@.current as int;
                self.advance();
                self.advance();
                if depth == 1 {
                    assert(comment_body(t.chars, at, 1, self@.line) == Some((2nat, self@.line)));
                    return Ok(());
                }
                depth = depth - 1;
            } else if c == '/' && self.peek() == '*' {
                self.advance();
                self.advance();
                depth = depth + 1;
            } else {
                self.advance();
            }
        }
        Err(ScanError::UnterminatedComment { line: comment_start_line })
    }

    /// Reads what stands at the cursor: a token, or whitespace or a comment,
    /// which yield none.
    fn scan_step(&mut self) -> (r: Result<Option<Token>, ScanError>)
        requires
            old(self)@.scannable(),
            old(self)@.current < old(self)@.text.len(),
        ensures
            old(self)@.stepped(
                final(self)@,
                lex_step(old(self)@.text, old(self)@.current as int, old(self)@.line),
                step_result(r),
            ),
            final(self)@.text == old(self)@.text,
            final(self)@.scannable(),
            r is Ok ==> final(self)@.current > old(self)@.current,
    {
        let c = self.get_current_char();
        match c {
            '(' | ')' | '{' | '}' | '[' | ']' | ',' | '.' | '-' | '+' | ';' | '*' => Ok(
                Some(self.scan_symbol(1)),
            ),
            ' ' | '\r' | '\t' => {
                self.advance();
                Ok(None)
            },
            '!' | '=' | '<' | '>' => {
                if self.peek() == '=' {
                    Ok(Some(self.scan_symbol(2)))
                } else {
                    Ok(Some(self.scan_symbol(1)))
                }
            },
            '"' => match self.scan_string() {
                Ok(t) => Ok(Some(t)),
                Err(e) => Err(e),
            },
            '/' => {
                let next = self.peek();
                if next == '/' {
                    self.skip_line_comment();
                    Ok(None)
                } else if next == '*' {
                    match self.skip_block_comment() {
                        Ok(()) => Ok(None),
                        Err(e) => Err(e),
                    }
                } else {
                    Ok(Some(self.scan_symbol(1)))
                }
            },
            '\n' => {
                self.advance();
                self.line = self.line + 1;
                Ok(None)
            },
            _ => {
                if is_ascii_digit(c) {
                    match self.scan_number() {
                        Ok(t) => Ok(Some(t)),
                        Err(e) => Err(e),
                    }
                } else if self.is_alpha(self.current) {
                    Ok(Some(self.scan_identifier()))
                } else {
                    Err(ScanError::UnexpectedCharacter { character: c, line: self.line })
                }
            },
        }
    }

    /// Scans the rest of the text: its tokens in order, or the first error.
    pub fn scan_tokens(&mut self) -> (r: Result<Vec<Token>, ScanError>)
        requires
            old(self)@.wf(),
            old(self)@.text.len() < usize::MAX,
        ensures
            scanned(r) == lex_from(old(self)@.text, old(self)@.current as int, old(self)@.line),
            final(self)@.wf(),
            final(self)@.text == old(self)@.text,
            r is Ok ==> final(self)@.current == final(self)@.text.len(),
    {
        let ghost t = self@.text;
        let mut tokens: Vec<Token> = Vec::new();
        while self.is_not_at_end()
            invariant
                self@.scannable(),
                self@.text == t,
                t == old(self)@.text,
                lex_from(t, old(self)@.current as int, old(self)@.line) == prefixed(
                    views(tokens@),
                    lex_from(t, self@.current as int, self@.line),
                ),
            decreases t.len() - self@.current,
        {
            let step = self.scan_step();
            match step {
                Ok(Some(tok)) => {
                    proof {
                        lemma_views_push(tokens@, tok);
                        let rest = lex_from(t, self@.current as int, self@.line);
                        if rest is Ok {
                            assert(views(tokens@).push(tok@) + rest->Ok_0 =~= views(tokens@) + (
                            seq![tok@] + rest->Ok_0));
                        }
                    }
                    tokens.push(tok);
                },
                Ok(None) => {},
                Err(e) => {
                    return Err(e);
                },
            }
        }
        proof {
            assert(views(tokens@) + seq![] =~= views(tokens@));
        }
        Ok(tokens)
    }

    /// Whether the character at `i` may start a word.
    fn is_alpha(&self, i: usize) -> (r: bool)
        requires
            self@.scannable(),
            i < self@.text.len(),
        ensures
            r == self@.text.starts_word(i as int),
    {
        self.alphabetic[i] || self.source[i] == '_'
    }

    fn is_word_char(&self, i: usize) -> (r: bool)
        requires
            self@.scannable(),
            i < self@.text.len(),
        ensures
            r == self@.text.continues_word(i as int),
    {
        self.alphanumeric[i] || self.source[i] == '_'
    }
}

} // verus!
