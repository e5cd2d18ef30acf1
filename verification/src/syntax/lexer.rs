use vstd::prelude::*;
use crate::syntax::error::ParseError;
use crate::syntax::span::{start_position, Position, Span};
use crate::syntax::token::{Token, TokenKind, TokenTag};
use crate::text::{concat_str, owned, string_from_chars};

verus! {

// ---------------------------------------------------------------------------
// Character classes and positions
// ---------------------------------------------------------------------------

/// Number of bytes of the UTF-8 encoding of `c`.
pub open spec fn char_width(c: char) -> nat {
    if (c as u32) < 0x80 {
        1
    } else if (c as u32) < 0x800 {
        2
    } else if (c as u32) < 0x10000 {
        3
    } else {
        4
    }
}

/// Number of bytes of the UTF-8 encoding of a character sequence.
pub open spec fn utf8_len(cs: Seq<char>) -> nat
    decreases cs.len(),
{
    if cs.len() == 0 {
        0
    } else {
        utf8_len(cs.drop_last()) + char_width(cs.last())
    }
}

/// The position reached after reading `c` at `p`.
pub open spec fn advance(p: Position, c: char) -> Position {
    if c == '\n' {
        Position { offset: (p.offset + char_width(c)) as usize, line: (p.line + 1) as usize, column: 1 }
    } else {
        Position { offset: (p.offset + char_width(c)) as usize, line: p.line, column: (p.column + 1) as usize }
    }
}

/// The position of the character at index `i` of `cs`.
pub open spec fn pos_at(cs: Seq<char>, i: int) -> Position
    decreases i,
{
    if i <= 0 || i > cs.len() {
        start_position()
    } else {
        advance(pos_at(cs, i - 1), cs[i - 1])
    }
}

/// White space as Unicode's White_Space property defines it.
pub open spec fn is_white_space(c: char) -> bool {
    let v = c as u32;
    (0x9 <= v && v <= 0xd) || v == 0x20 || v == 0x85 || v == 0xa0 || v == 0x1680 || (0x2000 <= v
        && v <= 0x200a) || v == 0x2028 || v == 0x2029 || v == 0x202f || v == 0x205f || v == 0x3000
}

pub open spec fn is_ascii_alpha(c: char) -> bool {
    ('a' <= c && c <= 'z') || ('A' <= c && c <= 'Z')
}

pub open spec fn is_ascii_digit(c: char) -> bool {
    '0' <= c && c <= '9'
}

pub open spec fn ident_start(c: char) -> bool {
    c == '_' || is_ascii_alpha(c)
}

pub open spec fn ident_continue(c: char) -> bool {
    ident_start(c) || is_ascii_digit(c)
}

// ---------------------------------------------------------------------------
// The token language
// ---------------------------------------------------------------------------

/// First index at or after `i` that does not continue an identifier.
pub open spec fn ident_end(cs: Seq<char>, i: int) -> int
    decreases cs.len() - i,
{
    if 0 <= i < cs.len() && ident_continue(cs[i]) {
        ident_end(cs, i + 1)
    } else {
        i
    }
}

/// First index at or after `i` that is not a decimal digit.
pub open spec fn digits_end(cs: Seq<char>, i: int) -> int
    decreases cs.len() - i,
{
    if 0 <= i < cs.len() && is_ascii_digit(cs[i]) {
        digits_end(cs, i + 1)
    } else {
        i
    }
}

/// Index just after the line comment that reaches index `i` (after its newline, or the end).
pub open spec fn comment_end(cs: Seq<char>, i: int) -> int
    decreases cs.len() - i,
{
    if i < 0 || i >= cs.len() {
        i
    } else if cs[i] == '\n' {
        i + 1
    } else {
        comment_end(cs, i + 1)
    }
}

/// The decimal value of the digits `cs[i..j]`.
pub open spec fn digits_value(cs: Seq<char>, i: int, j: int) -> int
    decreases j - i,
{
    if j <= i {
        0
    } else {
        digits_value(cs, i, j - 1) * 10 + (cs[j - 1] as int - '0' as int)
    }
}

/// The tag of an identifier-shaped word: a keyword, or a plain identifier.
pub open spec fn word_tag(t: Seq<char>) -> TokenTag {
    if t == "fn"@ {
        TokenTag::Fn
    } else if t == "update"@ {
        TokenTag::Update
    } else if t == "query"@ {
        TokenTag::Query
    } else if t == "state"@ {
        TokenTag::State
    } else if t == "event"@ {
        TokenTag::Event
    } else if t == "enum"@ {
        TokenTag::Enum
    } else if t == "record"@ {
        TokenTag::Record
    } else if t == "let"@ {
        TokenTag::Let
    } else if t == "match"@ {
        TokenTag::Match
    } else if t == "return"@ {
        TokenTag::Return
    } else if t == "if"@ {
        TokenTag::If
    } else if t == "true"@ {
        TokenTag::True
    } else if t == "false"@ {
        TokenTag::False
    } else if t == "_"@ {
        TokenTag::Underscore
    } else {
        TokenTag::Ident
    }
}

/// A token as the lexer sees it: its tag and the character range `start..end` it covers.
pub struct Lexeme {
    pub tag: TokenTag,
    pub start: int,
    pub end: int,
}

/// What the lexer does at a character that starts no white space.
pub enum LexStep {
    /// Skip the characters up to the given index.
    Skip(int),
    /// Read a token with the given tag that ends at the given index.
    Read(TokenTag, int),
    /// Stop with an error at this character.
    Fail,
}

/// The single-character punctuation tags.
pub open spec fn punct_tag(c: char) -> Option<TokenTag> {
    if c == '(' {
        Some(TokenTag::LParen)
    } else if c == ')' {
        Some(TokenTag::RParen)
    } else if c == '{' {
        Some(TokenTag::LBrace)
    } else if c == '}' {
        Some(TokenTag::RBrace)
    } else if c == '[' {
        Some(TokenTag::LBracket)
    } else if c == ']' {
        Some(TokenTag::RBracket)
    } else if c == '<' {
        Some(TokenTag::LAngle)
    } else if c == '>' {
        Some(TokenTag::RAngle)
    } else if c == ',' {
        Some(TokenTag::Comma)
    } else if c == ':' {
        Some(TokenTag::Colon)
    } else if c == '|' {
        Some(TokenTag::Pipe)
    } else if c == ';' {
        Some(TokenTag::Semi)
    } else if c == '+' {
        Some(TokenTag::Plus)
    } else if c == '*' {
        Some(TokenTag::Star)
    } else {
        None
    }
}

/// One step of the lexer at index `i`.
pub open spec fn lex_step(cs: Seq<char>, i: int) -> LexStep {
    let c = cs[i];
    let next_is = |d: char| i + 1 < cs.len() && cs[i + 1] == d;
    if is_white_space(c) {
        LexStep::Skip(i + 1)
    } else if c == '/' && next_is('/') {
        LexStep::Skip(comment_end(cs, i))
    } else if punct_tag(c) is Some {
        LexStep::Read(punct_tag(c).unwrap(), i + 1)
    } else if c == '=' {
        if next_is('>') {
            LexStep::Read(TokenTag::FatArrow, i + 2)
        } else {
            LexStep::Read(TokenTag::Eq, i + 1)
        }
    } else if c == '-' {
        if next_is('>') {
            LexStep::Read(TokenTag::Arrow, i + 2)
        } else {
            LexStep::Read(TokenTag::Minus, i + 1)
        }
    } else if c == '/' {
        LexStep::Read(TokenTag::Slash, i + 1)
    } else if ident_start(c) {
        let j = ident_end(cs, i);
        LexStep::Read(word_tag(cs.subrange(i, j)), j)
    } else if is_ascii_digit(c) {
        let j = digits_end(cs, i);
        if digits_value(cs, i, j) <= i64::MAX {
            LexStep::Read(TokenTag::Int, j)
        } else {
            LexStep::Fail
        }
    } else {
        LexStep::Fail
    }
}

/// The lexemes of `cs` from index `i` on, ending with the end-of-input lexeme;
/// or the index at which lexing fails.
pub open spec fn lex_from(cs: Seq<char>, i: int) -> Result<Seq<Lexeme>, int>
    decreases cs.len() - i,
{
    if i < 0 || i >= cs.len() {
        Ok(seq![Lexeme { tag: TokenTag::Eof, start: cs.len() as int, end: cs.len() as int }])
    } else {
        match lex_step(cs, i) {
            LexStep::Skip(j) => if i < j <= cs.len() {
                lex_from(cs, j)
            } else {
                Err(i)
            },
            LexStep::Read(t, j) => if i < j <= cs.len() {
                prepend(seq![Lexeme { tag: t, start: i, end: j }], lex_from(cs, j))
            } else {
                Err(i)
            },
            LexStep::Fail => Err(i),
        }
    }
}

pub open spec fn prepend(p: Seq<Lexeme>, r: Result<Seq<Lexeme>, int>) -> Result<Seq<Lexeme>, int> {
    match r {
        Ok(s) => Ok(p + s),
        Err(e) => Err(e),
    }
}

/// The lexemes of a whole source text.
pub open spec fn lex(cs: Seq<char>) -> Result<Seq<Lexeme>, int> {
    lex_from(cs, 0)
}

/// Lexemes in text order from index `i` on: each but the last is a non-empty piece of the text
/// that is not the end of input and ends at or before the next one starts; the last is the
/// empty end-of-input lexeme at the end of the text.
pub open spec fn lexemes_in_order(cs: Seq<char>, ls: Seq<Lexeme>, i: int) -> bool {
    &&& ls.len() >= 1
    &&& ls.last() == Lexeme { tag: TokenTag::Eof, start: cs.len() as int, end: cs.len() as int }
    &&& forall|k: int| 0 <= k < ls.len() - 1 ==> (#[trigger] ls[k]).tag != TokenTag::Eof && i <= ls[k].start < ls[k].end
    &&& forall|a: int, b: int| 0 <= a < b < ls.len() ==> (#[trigger] ls[a]).end <= (#[trigger] ls[b]).start
}

proof fn lemma_step_not_eof(cs: Seq<char>, i: int)
    requires
        0 <= i < cs.len(),
    ensures
        lex_step(cs, i) matches LexStep::Read(t, _) ==> t != TokenTag::Eof,
{
    let c = cs[i];
    if ident_start(c) {
        let j = ident_end(cs, i);
        let w = cs.subrange(i, j);
        assert(word_tag(w) != TokenTag::Eof);
    }
}

proof fn lemma_prepend_in_order(cs: Seq<char>, i: int, t: TokenTag, j: int, rest: Seq<Lexeme>)
    requires
        t != TokenTag::Eof,
        0 <= i < j <= cs.len(),
        lexemes_in_order(cs, rest, j),
    ensures
        lexemes_in_order(cs, seq![Lexeme { tag: t, start: i, end: j }] + rest, i),
{
    let l = Lexeme { tag: t, start: i, end: j };
    let ls = seq![l] + rest;
    assert(ls.last() == rest.last());
    assert forall|k: int| 0 <= k < ls.len() - 1 implies (#[trigger] ls[k]).tag != TokenTag::Eof && i <= ls[k].start
        < ls[k].end by {
        if k > 0 {
            assert(ls[k] == rest[k - 1]);
        }
    }
    assert forall|a: int, b: int| 0 <= a < b < ls.len() implies (#[trigger] ls[a]).end <= (#[trigger] ls[b]).start by {
        assert(ls[b] == rest[b - 1]);
        if a == 0 {
            if b - 1 < rest.len() - 1 {
                assert(j <= rest[b - 1].start);
            } else {
                assert(rest[b - 1] == rest.last());
            }
        } else {
            assert(ls[a] == rest[a - 1]);
        }
    }
}

proof fn lemma_lex_from_in_order(cs: Seq<char>, i: int)
    requires
        0 <= i <= cs.len(),
    ensures
        lex_from(cs, i) matches Ok(ls) ==> lexemes_in_order(cs, ls, i),
    decreases cs.len() - i,
{
    if i < cs.len() {
        lemma_step_not_eof(cs, i);
        let st = lex_step(cs, i);
        match st {
            LexStep::Skip(j) => {
                if i < j <= cs.len() {
                    lemma_lex_from_in_order(cs, j);
                    assert(lex_from(cs, i) == lex_from(cs, j));
                }
            },
            LexStep::Read(t, j) => {
                if i < j <= cs.len() {
                    lemma_lex_from_in_order(cs, j);
                    assert(lex_from(cs, i) == prepend(seq![Lexeme { tag: t, start: i, end: j }], lex_from(cs, j)));
                    match lex_from(cs, j) {
                        Ok(rest) => lemma_prepend_in_order(cs, i, t, j, rest),
                        Err(_) => {},
                    }
                }
            },
            LexStep::Fail => {},
        }
    } else {
        assert(lex_from(cs, i) == Ok::<Seq<Lexeme>, int>(seq![Lexeme { tag: TokenTag::Eof, start: cs.len() as int, end: cs.len() as int }]));
    }
}

/// The lexemes of a text that lexes are in text order: non-empty, not overlapping, and ending
/// with the only end-of-input lexeme, at the end of the text.
pub proof fn lemma_lexemes_in_order(cs: Seq<char>)
    ensures
        lex(cs) matches Ok(ls) ==> lexemes_in_order(cs, ls, 0),
{
    lemma_lex_from_in_order(cs, 0);
}

/// Tokens in text order: each but the last is a non-empty piece of the text, not the end of
/// input, that ends at or before the next one starts (by byte offset); the last is the end of
/// input, empty, at the end of the text; every token starts at a line and a column of at least 1.
pub open spec fn tokens_in_order(cs: Seq<char>, toks: Seq<Token>) -> bool {
    &&& toks.len() >= 1
    &&& toks.last().kind is Eof
    &&& toks.last().span.start.offset == utf8_len(cs) && toks.last().span.end.offset == utf8_len(cs)
    &&& forall|k: int|
        0 <= k < toks.len() - 1 ==> !((#[trigger] toks[k]).kind is Eof) && toks[k].span.start.offset
            < toks[k].span.end.offset
    &&& forall|a: int, b: int|
        0 <= a < b < toks.len() ==> (#[trigger] toks[a]).span.end.offset <= (#[trigger] toks[b]).span.start.offset
    &&& forall|k: int| 0 <= k < toks.len() ==> 1 <= (#[trigger] toks[k]).span.start.line && 1 <= toks[k].span.start.column
}

/// An ASCII letter, digit or underscore.
pub open spec fn word_char(c: char) -> bool {
    ('a' <= c && c <= 'z') || ('A' <= c && c <= 'Z') || ('0' <= c && c <= '9') || c == '_'
}

proof fn lemma_word_end(cs: Seq<char>, i: int)
    requires
        0 <= i <= cs.len(),
    ensures
        i <= ident_end(cs, i) <= cs.len(),
        forall|k: int| i <= k < ident_end(cs, i) ==> word_char(#[trigger] cs[k]),
        ident_end(cs, i) < cs.len() ==> !word_char(cs[ident_end(cs, i)]),
    decreases cs.len() - i,
{
    if i < cs.len() && ident_continue(cs[i]) {
        lemma_word_end(cs, i + 1);
    }
}

/// A word is read whole: at an ASCII letter or underscore the lexer reads one token that runs
/// over every following ASCII letter, digit and underscore, and stops just before the first
/// other character or at the end of the text.
pub proof fn lemma_word_read_whole(cs: Seq<char>, i: int)
    requires
        0 <= i < cs.len(),
        ('a' <= cs[i] && cs[i] <= 'z') || ('A' <= cs[i] && cs[i] <= 'Z') || cs[i] == '_',
    ensures
        lex_step(cs, i) matches LexStep::Read(_, j) && i < j <= cs.len() && (forall|k: int|
            i <= k < j ==> word_char(#[trigger] cs[k])) && (j < cs.len() ==> !word_char(cs[j])),
{
    lemma_word_end(cs, i);
    let c = cs[i];
    assert(!is_white_space(c));
    assert(punct_tag(c) is None);
    assert(ident_start(c));
}

/// An executable token is the token that a lexeme of `cs` denotes.
pub open spec fn denotes(cs: Seq<char>, tok: Token, l: Lexeme) -> bool {
    &&& tok.kind.tag() == l.tag
    &&& tok.span.start == pos_at(cs, l.start)
    &&& tok.span.end == pos_at(cs, l.end)
    &&& (tok.kind matches TokenKind::Ident(name) ==> name@ == cs.subrange(l.start, l.end))
    &&& (tok.kind matches TokenKind::Int(v) ==> v == digits_value(cs, l.start, l.end))
}

/// A token vector is exactly the list that the lexemes denote.
pub open spec fn denotes_all(cs: Seq<char>, toks: Seq<Token>, ls: Seq<Lexeme>) -> bool {
    &&& toks.len() == ls.len()
    &&& forall|k: int| 0 <= k < toks.len() ==> denotes(cs, #[trigger] toks[k], ls[k])
}

/// The message of the error reported where lexing fails at index `i`.
pub open spec fn lex_error_message(cs: Seq<char>, i: int) -> Seq<char> {
    if is_ascii_digit(cs[i]) {
        "invalid integer literal '"@ + cs.subrange(i, digits_end(cs, i)) + "'"@
    } else {
        "unexpected character '"@ + seq![cs[i]] + "'"@
    }
}

// ---------------------------------------------------------------------------
// Lemmas
// ---------------------------------------------------------------------------

proof fn lemma_utf8_len_take(cs: Seq<char>, i: int)
    requires
        0 <= i < cs.len(),
    ensures
        utf8_len(cs.take(i + 1)) == utf8_len(cs.take(i)) + char_width(cs[i]),
{
    assert(cs.take(i + 1).drop_last() =~= cs.take(i));
}

proof fn lemma_utf8_len_bounds(cs: Seq<char>, i: int)
    requires
        0 <= i <= cs.len(),
    ensures
        i <= utf8_len(cs.take(i)) <= utf8_len(cs),
    decreases cs.len() - i,
{
    lemma_utf8_len_at_least_len(cs.take(i));
    if i < cs.len() {
        lemma_utf8_len_take(cs, i);
        lemma_utf8_len_bounds(cs, i + 1);
    } else {
        assert(cs.take(i) =~= cs);
        lemma_utf8_len_at_least_len(cs);
    }
}

proof fn lemma_utf8_len_at_least_len(cs: Seq<char>)
    ensures
        cs.len() <= utf8_len(cs),
    decreases cs.len(),
{
    if cs.len() > 0 {
        lemma_utf8_len_at_least_len(cs.drop_last());
    }
}

/// Byte offsets grow with character indices.
proof fn lemma_offsets_grow(cs: Seq<char>, a: int, b: int)
    requires
        0 <= a < b <= cs.len(),
        utf8_len(cs) < usize::MAX,
    ensures
        pos_at(cs, a).offset < pos_at(cs, b).offset,
    decreases b - a,
{
    lemma_pos_at(cs, a);
    lemma_pos_at(cs, b);
    lemma_pos_at(cs, b - 1);
    lemma_utf8_len_take(cs, b - 1);
    if a < b - 1 {
        lemma_offsets_grow(cs, a, b - 1);
    }
}

/// The tokens of a text that lexes are in text order: non-empty, not overlapping, ending with
/// the only end-of-input token at the end of the text, each at a line and column of at least 1.
pub proof fn lemma_tokens_in_order(cs: Seq<char>, toks: Seq<Token>, ls: Seq<Lexeme>)
    requires
        lex(cs) == Ok::<Seq<Lexeme>, int>(ls),
        denotes_all(cs, toks, ls),
        utf8_len(cs) < usize::MAX,
    ensures
        tokens_in_order(cs, toks),
{
    lemma_lexemes_in_order(cs);
    let n = ls.len() - 1;
    let len = cs.len() as int;
    assert(denotes(cs, toks[n], ls[n]));
    assert(ls[n] == ls.last());
    lemma_pos_at(cs, len);
    assert(cs.take(len) =~= cs);
    assert forall|k: int| 0 <= k < ls.len() implies 0 <= (#[trigger] ls[k]).start <= ls[k].end <= len by {
        if k < n {
            assert(ls[k].end <= ls[n].start);
        }
    }
    assert forall|k: int| 0 <= k < toks.len() - 1 implies !((#[trigger] toks[k]).kind is Eof) && toks[k].span.start.offset
        < toks[k].span.end.offset by {
        assert(denotes(cs, toks[k], ls[k]));
        lemma_offsets_grow(cs, ls[k].start, ls[k].end);
    }
    assert forall|a: int, b: int| 0 <= a < b < toks.len() implies (#[trigger] toks[a]).span.end.offset <= (
    #[trigger] toks[b]).span.start.offset by {
        assert(denotes(cs, toks[a], ls[a]));
        assert(denotes(cs, toks[b], ls[b]));
        if ls[a].end < ls[b].start {
            lemma_offsets_grow(cs, ls[a].end, ls[b].start);
        }
    }
    assert forall|k: int| 0 <= k < toks.len() implies 1 <= (#[trigger] toks[k]).span.start.line && 1
        <= toks[k].span.start.column by {
        assert(denotes(cs, toks[k], ls[k]));
        lemma_pos_at(cs, ls[k].start);
    }
}

/// Positions stay within the machine's range while the text's encoding does.
proof fn lemma_pos_at(cs: Seq<char>, i: int)
    requires
        0 <= i <= cs.len(),
        utf8_len(cs) < usize::MAX,
    ensures
        pos_at(cs, i).offset == utf8_len(cs.take(i)),
        1 <= pos_at(cs, i).line <= i + 1,
        1 <= pos_at(cs, i).column <= i + 1,
    decreases i,
{
    lemma_utf8_len_bounds(cs, i);
    if i > 0 {
        lemma_pos_at(cs, i - 1);
        lemma_utf8_len_take(cs, i - 1);
        lemma_utf8_len_bounds(cs, i);
    }
}

proof fn lemma_ident_end(cs: Seq<char>, i: int)
    requires
        0 <= i <= cs.len(),
    ensures
        i <= ident_end(cs, i) <= cs.len(),
        forall|k: int| i <= k < ident_end(cs, i) ==> ident_continue(#[trigger] cs[k]),
        ident_end(cs, i) < cs.len() ==> !ident_continue(cs[ident_end(cs, i)]),
    decreases cs.len() - i,
{
    if i < cs.len() && ident_continue(cs[i]) {
        lemma_ident_end(cs, i + 1);
    }
}

proof fn lemma_digits_end(cs: Seq<char>, i: int)
    requires
        0 <= i <= cs.len(),
    ensures
        i <= digits_end(cs, i) <= cs.len(),
        forall|k: int| i <= k < digits_end(cs, i) ==> is_ascii_digit(#[trigger] cs[k]),
        digits_end(cs, i) < cs.len() ==> !is_ascii_digit(cs[digits_end(cs, i)]),
    decreases cs.len() - i,
{
    if i < cs.len() && is_ascii_digit(cs[i]) {
        lemma_digits_end(cs, i + 1);
    }
}

proof fn lemma_comment_end(cs: Seq<char>, i: int)
    requires
        0 <= i <= cs.len(),
    ensures
        i <= comment_end(cs, i) <= cs.len(),
        i < cs.len() ==> i < comment_end(cs, i),
    decreases cs.len() - i,
{
    if i < cs.len() && cs[i] != '\n' {
        lemma_comment_end(cs, i + 1);
    }
}

proof fn lemma_digits_value_monotone(cs: Seq<char>, i: int, k: int, j: int)
    requires
        i <= k <= j,
        forall|m: int| i <= m < j ==> is_ascii_digit(#[trigger] cs[m]),
    ensures
        0 <= digits_value(cs, i, k) <= digits_value(cs, i, j),
    decreases j - k,
{
    if k < j {
        lemma_digits_value_monotone(cs, i, k, j - 1);
        lemma_digits_value_nonneg(cs, i, j - 1);
    } else {
        lemma_digits_value_nonneg(cs, i, k);
    }
}

proof fn lemma_digits_value_nonneg(cs: Seq<char>, i: int, j: int)
    requires
        forall|m: int| i <= m < j ==> is_ascii_digit(#[trigger] cs[m]),
    ensures
        0 <= digits_value(cs, i, j),
    decreases j - i,
{
    if j > i {
        lemma_digits_value_nonneg(cs, i, j - 1);
    }
}

/// A successful lexing ends with the end-of-input lexeme, and has no other.
pub proof fn lemma_lex_from_shape(cs: Seq<char>, i: int)
    requires
        0 <= i,
    ensures
        lex_from(cs, i) matches Ok(ls) ==> {
            &&& ls.len() > 0
            &&& ls.last().tag == TokenTag::Eof
            &&& forall|k: int| 0 <= k < ls.len() - 1 ==> (#[trigger] ls[k]).tag != TokenTag::Eof
        },
    decreases cs.len() - i,
{
    if 0 <= i < cs.len() {
        match lex_step(cs, i) {
            LexStep::Skip(j) => {
                if i < j <= cs.len() {
                    lemma_lex_from_shape(cs, j);
                }
            },
            LexStep::Read(t, j) => {
                if i < j <= cs.len() {
                    lemma_lex_from_shape(cs, j);
                    if let Ok(rest) = lex_from(cs, j) {
                        let ls = seq![Lexeme { tag: t, start: i, end: j }] + rest;
                        assert(t != TokenTag::Eof);
                        assert forall|k: int| 0 <= k < ls.len() - 1 implies (#[trigger] ls[k]).tag
                            != TokenTag::Eof by {
                            if k > 0 {
                                assert(ls[k] == rest[k - 1]);
                            }
                        }
                    }
                }
            },
            LexStep::Fail => {},
        }
    }
}

// ---------------------------------------------------------------------------
// Executable lexer
// ---------------------------------------------------------------------------

proof fn lemma_prepend_assoc(a: Seq<Lexeme>, b: Seq<Lexeme>, r: Result<Seq<Lexeme>, int>)
    ensures
        prepend(a, prepend(b, r)) == prepend(a + b, r),
{
    if let Ok(x) = r {
        assert((a + b) + x =~= a + (b + x));
    }
}

fn is_white_space_char(c: char) -> (r: bool)
    ensures
        r == is_white_space(c),
{
    let v = c as u32;
    (0x9 <= v && v <= 0xd) || v == 0x20 || v == 0x85 || v == 0xa0 || v == 0x1680 || (0x2000 <= v
        && v <= 0x200a) || v == 0x2028 || v == 0x2029 || v == 0x202f || v == 0x205f || v == 0x3000
}

fn is_ident_start(ch: char) -> (r: bool)
    ensures
        r == ident_start(ch),
{
    ch == '_' || ('a' <= ch && ch <= 'z') || ('A' <= ch && ch <= 'Z')
}

fn is_ident_continue(ch: char) -> (r: bool)
    ensures
        r == ident_continue(ch),
{
    is_ident_start(ch) || ('0' <= ch && ch <= '9')
}

fn is_digit(ch: char) -> (r: bool)
    ensures
        r == is_ascii_digit(ch),
{
    '0' <= ch && ch <= '9'
}

/// The keyword or identifier token for a word.
fn word_kind(text: String) -> (k: TokenKind)
    ensures
        k.tag() == word_tag(text@),
        k.tag() == TokenTag::Ident ==> k == TokenKind::Ident(text),
{
    if text == owned("fn") {
        TokenKind::Fn
    } else if text == owned("update") {
        TokenKind::Update
    } else if text == owned("query") {
        TokenKind::Query
    } else if text == owned("state") {
        TokenKind::State
    } else if text == owned("event") {
        TokenKind::Event
    } else if text == owned("enum") {
        TokenKind::Enum
    } else if text == owned("record") {
        TokenKind::Record
    } else if text == owned("let") {
        TokenKind::Let
    } else if text == owned("match") {
        TokenKind::Match
    } else if text == owned("return") {
        TokenKind::Return
    } else if text == owned("if") {
        TokenKind::If
    } else if text == owned("true") {
        TokenKind::True
    } else if text == owned("false") {
        TokenKind::False
    } else if text == owned("_") {
        TokenKind::Underscore
    } else {
        TokenKind::Ident(text)
    }
}

/// A cursor over the characters of a source text.
pub struct Lexer {
    chars: Vec<char>,
    cursor: usize,
    position: Position,
}

impl Lexer {
    /// The cursor is inside the text and the position is the position of the cursor.
    pub closed spec fn wf(&self) -> bool {
        &&& self.cursor <= self.chars.len()
        &&& self.position == pos_at(self.chars@, self.cursor as int)
        &&& utf8_len(self.chars@) < usize::MAX
    }

    pub closed spec fn text(&self) -> Seq<char> {
        self.chars@
    }

    pub closed spec fn at_start(&self) -> bool {
        self.cursor == 0
    }

    pub fn new(input: &str) -> (l: Self)
        requires
            utf8_len(input@) < usize::MAX,
        ensures
            l.wf(),
            l.at_start(),
            l.text() == input@,
    {
        Lexer { chars: chars_of(input), cursor: 0, position: Position::start() }
    }

    fn peek_char(&self) -> (r: Option<char>)
        requires
            self.wf(),
        ensures
            r == (if self.cursor < self.chars.len() {
                Some(self.chars@[self.cursor as int])
            } else {
                None
            }),
    {
        if self.cursor < self.chars.len() {
            Some(self.chars[self.cursor])
        } else {
            None
        }
    }

    fn peek_next_char(&self) -> (r: Option<char>)
        requires
            self.wf(),
        ensures
            r == (if self.cursor + 1 < self.chars.len() {
                Some(self.chars@[self.cursor + 1])
            } else {
                None
            }),
    {
        if self.cursor < self.chars.len() && self.cursor + 1 < self.chars.len() {
            Some(self.chars[self.cursor + 1])
        } else {
            None
        }
    }

    fn bump_char(&mut self) -> (r: Option<char>)
        requires
            old(self).wf(),
        ensures
            final(self).wf(),
            final(self).chars@ == old(self).chars@,
            r == (if old(self).cursor < old(self).chars.len() {
                Some(old(self).chars@[old(self).cursor as int])
            } else {
                None
            }),
            final(self).cursor == (if old(self).cursor < old(self).chars.len() {
                old(self).cursor + 1
            } else {
                old(self).cursor as int
            }),
    {
        let ch = match self.peek_char() {
            Some(c) => c,
            None => return None,
        };
        let ghost cs = self.chars@;
        let ghost i = self.cursor as int;
        proof {
            lemma_pos_at(cs, i);
            lemma_pos_at(cs, i + 1);
            lemma_utf8_len_take(cs, i);
            lemma_utf8_len_bounds(cs, i + 1);
        }
        let v = ch as u32;
        let width: usize = if v < 0x80 {
            1
        } else if v < 0x800 {
            2
        } else if v < 0x10000 {
            3
        } else {
            4
        };
        self.cursor = self.cursor + 1;
        self.position.offset = self.position.offset + width;
        if ch == '\n' {
            self.position.line = self.position.line + 1;
            self.position.column = 1;
        } else {
            self.position.column = self.position.column + 1;
        }
        Some(ch)
    }

    fn lex_ident_or_keyword(&mut self) -> (k: TokenKind)
        requires
            old(self).wf(),
            old(self).cursor < old(self).chars.len(),
            ident_start(old(self).chars@[old(self).cursor as int]),
        ensures
            final(self).wf(),
            final(self).chars@ == old(self).chars@,
            final(self).cursor == ident_end(old(self).chars@, old(self).cursor as int),
            k.tag() == word_tag(
                old(self).chars@.subrange(old(self).cursor as int, final(self).cursor as int),
            ),
            k matches TokenKind::Ident(name) ==> name@ == old(self).chars@.subrange(
                old(self).cursor as int,
                final(self).cursor as int,
            ),
    {
        let start = self.cursor;
        let ghost cs = self.chars@;
        proof {
            lemma_ident_end(cs, start as int);
        }
        while self.cursor < self.chars.len() && is_ident_continue(self.chars[self.cursor])
            invariant
                self.wf(),
                self.chars@ == cs,
                start <= self.cursor <= ident_end(cs, start as int),
                ident_end(cs, start as int) == ident_end(cs, self.cursor as int),
            decreases self.chars.len() - self.cursor,
        {
            proof {
                lemma_ident_end(cs, self.cursor + 1);
            }
            self.bump_char();
        }
        let text = string_from_chars(&self.chars, start, self.cursor);
        word_kind(text)
    }

    fn lex_int(&mut self) -> (r: Result<TokenKind, ParseError>)
        requires
            old(self).wf(),
            old(self).cursor < old(self).chars.len(),
            is_ascii_digit(old(self).chars@[old(self).cursor as int]),
        ensures
            final(self).wf(),
            final(self).chars@ == old(self).chars@,
            ({
                let cs = old(self).chars@;
                let i = old(self).cursor as int;
                let j = digits_end(cs, i);
                match r {
                    Ok(k) => digits_value(cs, i, j) <= i64::MAX && final(self).cursor == j && k
                        == TokenKind::Int(digits_value(cs, i, j) as i64),
                    Err(e) => digits_value(cs, i, j) > i64::MAX && e.position == pos_at(cs, i)
                        && e.message@ == lex_error_message(cs, i),
                }
            }),
    {
        let start = self.cursor;
        let pos = self.position;
        let ghost cs = self.chars@;
        proof {
            lemma_digits_end(cs, start as int);
        }
        let mut acc: u128 = 0;
        let mut overflow = false;
        while self.cursor < self.chars.len() && is_digit(self.chars[self.cursor])
            invariant
                self.wf(),
                self.chars@ == cs,
                start <= self.cursor <= digits_end(cs, start as int),
                digits_end(cs, start as int) == digits_end(cs, self.cursor as int),
                forall|m: int|
                    start <= m < digits_end(cs, start as int) ==> is_ascii_digit(#[trigger] cs[m]),
                !overflow ==> acc == digits_value(cs, start as int, self.cursor as int) && acc
                    <= i64::MAX,
                overflow ==> digits_value(cs, start as int, self.cursor as int) > i64::MAX,
            decreases self.chars.len() - self.cursor,
        {
            let ch = self.chars[self.cursor];
            proof {
                lemma_digits_value_nonneg(cs, start as int, self.cursor as int);
            }
            proof {
                lemma_digits_end(cs, self.cursor + 1);
            }
            let d = (ch as u32 - '0' as u32) as u128;
            if !overflow {
                acc = acc * 10 + d;
                if acc > 0x7fff_ffff_ffff_ffffu128 {
                    overflow = true;
                }
            }
            self.bump_char();
        }
        let end = self.cursor;
        if overflow {
            let text = string_from_chars(&self.chars, start, end);
            let m = concat_str(owned("invalid integer literal '"), text.as_str());
            let message = concat_str(m, "'");
            proof {
                assert(message@ =~= lex_error_message(cs, start as int));
            }
            return Err(ParseError { message, position: pos });
        }
        Ok(TokenKind::Int(acc as i64))
    }
}

impl Lexer {
    /// Reads the whole text into tokens, ending with an end-of-input token; or reports where
    /// and why the text is not made of tokens.
    pub fn tokenize(self) -> (r: Result<Vec<Token>, ParseError>)
        requires
            self.wf(),
            self.at_start(),
        ensures
            match (r, lex(self.text())) {
                (Ok(toks), Ok(ls)) => denotes_all(self.text(), toks@, ls),
                (Err(e), Err(i)) => e.position == pos_at(self.text(), i) && e.message@
                    == lex_error_message(self.text(), i),
                _ => false,
            },
            r matches Ok(toks) ==> tokens_in_order(self.text(), toks@),
    {
        let ghost cs = self.chars@;
        let mut lexer = self;
        let ghost mut done: Seq<Lexeme> = Seq::empty();
        let mut tokens: Vec<Token> = Vec::new();
        while lexer.cursor < lexer.chars.len()
            invariant
                lexer.wf(),
                lexer.chars@ == cs,
                self.text() == cs,
                lex(cs) == prepend(done, lex_from(cs, lexer.cursor as int)),
                denotes_all(cs, tokens@, done),
            decreases lexer.chars.len() - lexer.cursor,
        {
            let i = lexer.cursor;
            let ch = lexer.chars[i];
            if is_white_space_char(ch) {
                lexer.bump_char();
                assert(lex_step(cs, i as int) == LexStep::Skip(i + 1));
                assert(lex_from(cs, i as int) == lex_from(cs, i + 1));
                continue;
            }
            if ch == '/' && lexer.peek_next_char() == Some('/') {
                proof {
                    lemma_comment_end(cs, i + 2);
                    assert(comment_end(cs, i + 1) == comment_end(cs, i + 2));
                    assert(comment_end(cs, i as int) == comment_end(cs, i + 2));
                }
                lexer.bump_char();
                lexer.bump_char();
                while lexer.cursor < lexer.chars.len() && lexer.chars[lexer.cursor] != '\n'
                    invariant
                        lexer.wf(),
                        lexer.chars@ == cs,
                        i + 2 <= lexer.cursor <= cs.len(),
                        comment_end(cs, i as int) == comment_end(cs, lexer.cursor as int),
                    decreases lexer.chars.len() - lexer.cursor,
                {
                    lexer.bump_char();
                }
                if lexer.cursor < lexer.chars.len() {
                    lexer.bump_char();
                }
                assert(lexer.cursor == comment_end(cs, i as int));
                assert(lex_step(cs, i as int) == LexStep::Skip(comment_end(cs, i as int)));
                assert(lex_from(cs, i as int) == lex_from(cs, lexer.cursor as int));
                continue;
            }
            let start = lexer.position;
            let token = if ch == '(' {
                lexer.bump_char();
                TokenKind::LParen
            } else if ch == ')' {
                lexer.bump_char();
                TokenKind::RParen
            } else if ch == '{' {
                lexer.bump_char();
                TokenKind::LBrace
            } else if ch == '}' {
                lexer.bump_char();
                TokenKind::RBrace
            } else if ch == '[' {
                lexer.bump_char();
                TokenKind::LBracket
            } else if ch == ']' {
                lexer.bump_char();
                TokenKind::RBracket
            } else if ch == '<' {
                lexer.bump_char();
                TokenKind::LAngle
            } else if ch == '>' {
                lexer.bump_char();
                TokenKind::RAngle
            } else if ch == ',' {
                lexer.bump_char();
                TokenKind::Comma
            } else if ch == ':' {
                lexer.bump_char();
                TokenKind::Colon
            } else if ch == '|' {
                lexer.bump_char();
                TokenKind::Pipe
            } else if ch == ';' {
                lexer.bump_char();
                TokenKind::Semi
            } else if ch == '+' {
                lexer.bump_char();
                TokenKind::Plus
            } else if ch == '*' {
                lexer.bump_char();
                TokenKind::Star
            } else if ch == '=' {
                lexer.bump_char();
                if lexer.peek_char() == Some('>') {
                    lexer.bump_char();
                    TokenKind::FatArrow
                } else {
                    TokenKind::Eq
                }
            } else if ch == '-' {
                lexer.bump_char();
                if lexer.peek_char() == Some('>') {
                    lexer.bump_char();
                    TokenKind::Arrow
                } else {
                    TokenKind::Minus
                }
            } else if ch == '/' {
                lexer.bump_char();
                TokenKind::Slash
            } else if is_ident_start(ch) {
                proof {
                    lemma_ident_end(cs, i + 1);
                }
                lexer.lex_ident_or_keyword()
            } else if is_digit(ch) {
                proof {
                    lemma_digits_end(cs, i + 1);
                    lemma_digits_end(cs, i as int);
                    lemma_digits_value_nonneg(cs, i as int, digits_end(cs, i as int));
                }
                match lexer.lex_int() {
                    Ok(k) => k,
                    Err(e) => {
                        proof {
                            assert(lex_step(cs, i as int) is Fail);
                            assert(lex_from(cs, i as int) == Err::<Seq<Lexeme>, int>(i as int));
                            lemma_prepend_err(done, i as int);
                        }
                        return Err(e);
                    },
                }
            } else {
                let text = string_from_chars(&lexer.chars, i, i + 1);
                let m = concat_str(owned("unexpected character '"), text.as_str());
                let message = concat_str(m, "'");
                proof {
                    assert(message@ =~= lex_error_message(cs, i as int));
                    assert(lex_step(cs, i as int) is Fail);
                    assert(lex_from(cs, i as int) == Err::<Seq<Lexeme>, int>(i as int));
                    lemma_prepend_err(done, i as int);
                }
                return Err(ParseError { message, position: start });
            };
            let end = lexer.position;
            let ghost lexeme = Lexeme { tag: token.tag(), start: i as int, end: lexer.cursor as int };
            proof {
                assert(i < lexer.cursor <= cs.len());
                assert(lex_step(cs, i as int) == LexStep::Read(token.tag(), lexer.cursor as int));
                assert(lex_from(cs, i as int) == prepend(seq![lexeme], lex_from(cs, lexer.cursor as int)));
                lemma_prepend_assoc(done, seq![lexeme], lex_from(cs, lexer.cursor as int));
                assert(done.push(lexeme) =~= done + seq![lexeme]);
                done = done.push(lexeme);
            }
            tokens.push(Token { kind: token, span: Span::join(start, end) });
            assert(denotes(cs, tokens@[tokens.len() - 1], done[done.len() - 1]));
        }
        let eof = lexer.position;
        let ghost lexeme = Lexeme { tag: TokenTag::Eof, start: cs.len() as int, end: cs.len() as int };
        proof {
            done = done.push(lexeme);
        }
        tokens.push(Token { kind: TokenKind::Eof, span: Span::join(eof, eof) });
        assert(denotes(cs, tokens@[tokens.len() - 1], done[done.len() - 1]));
        proof {
            if let Ok(ls) = lex(cs) {
                lemma_tokens_in_order(cs, tokens@, ls);
            }
        }
        Ok(tokens)
    }
}

proof fn lemma_prepend_err(done: Seq<Lexeme>, i: int)
    ensures
        prepend(done, Err(i)) == Err::<Seq<Lexeme>, int>(i),
{
}

/// The characters of a string, in order.
pub fn chars_of(input: &str) -> (cs: Vec<char>)
    ensures
        cs@ == input@,
{
    let mut cs: Vec<char> = Vec::new();
    proof {
        broadcast use vstd::string::group_string_axioms;
    }
    for c in it: input.chars()
        invariant
            cs@ =~= it.seq().take(it.index() as int),
            it.seq() == input@,
    {
        cs.push(c);
    }
    cs
}

} // verus!
