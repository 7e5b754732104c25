//! The lexical scanner: turns a source byte string into tokens carrying
//! absolute byte offsets, with two-byte lookahead for comments and number
//! fractions.
//!
//! The spec functions in this module define scanning as a total function of
//! the source bytes; the executable scanner is proved to follow them exactly.

use vstd::prelude::*;
use crate::error::{CompileError, CompileErrorKind};

verus! {

/// The ASCII byte values the scanner dispatches on.
pub const ASCII_SPACE: u8 = 32;
pub const ASCII_CR: u8 = 13;
pub const ASCII_TAB: u8 = 9;
pub const ASCII_NEWLINE: u8 = 10;
pub const ASCII_LPAREN: u8 = 40;
pub const ASCII_RPAREN: u8 = 41;
pub const ASCII_LBRACE: u8 = 123;
pub const ASCII_RBRACE: u8 = 125;
pub const ASCII_SEMI: u8 = 59;
pub const ASCII_COMMA: u8 = 44;
pub const ASCII_DOT: u8 = 46;
pub const ASCII_PLUS: u8 = 43;
pub const ASCII_MINUS: u8 = 45;
pub const ASCII_STAR: u8 = 42;
pub const ASCII_SLASH: u8 = 47;
pub const ASCII_BANG: u8 = 33;
pub const ASCII_EQ: u8 = 61;
pub const ASCII_LT: u8 = 60;
pub const ASCII_GT: u8 = 62;
pub const ASCII_QUOTE: u8 = 34;
pub const ASCII_ZERO: u8 = 48;
pub const ASCII_NINE: u8 = 57;
pub const ASCII_LOWER_A: u8 = 97;
pub const ASCII_LOWER_B: u8 = 98;
pub const ASCII_LOWER_C: u8 = 99;
pub const ASCII_LOWER_D: u8 = 100;
pub const ASCII_LOWER_E: u8 = 101;
pub const ASCII_LOWER_F: u8 = 102;
pub const ASCII_LOWER_G: u8 = 103;
pub const ASCII_LOWER_H: u8 = 104;
pub const ASCII_LOWER_I: u8 = 105;
pub const ASCII_LOWER_L: u8 = 108;
pub const ASCII_LOWER_N: u8 = 110;
pub const ASCII_LOWER_O: u8 = 111;
pub const ASCII_LOWER_P: u8 = 112;
pub const ASCII_LOWER_R: u8 = 114;
pub const ASCII_LOWER_S: u8 = 115;
pub const ASCII_LOWER_T: u8 = 116;
pub const ASCII_LOWER_U: u8 = 117;
pub const ASCII_LOWER_V: u8 = 118;
pub const ASCII_LOWER_W: u8 = 119;
pub const ASCII_LOWER_Z: u8 = 122;
pub const ASCII_UPPER_A: u8 = 65;
pub const ASCII_UPPER_Z: u8 = 90;

/// The closed set of token kinds.
#[derive(Clone, Copy, Debug, PartialEq, Eq, Structural)]
pub enum TokenType {
    LeftParen,
    RightParen,
    LeftBrace,
    RightBrace,
    Comma,
    Dot,
    Minus,
    Plus,
    Semicolon,
    Slash,
    Star,
    Bang,
    BangEqual,
    Equal,
    EqualEqual,
    Greater,
    GreaterEqual,
    Less,
    LessEqual,
    Identifier,
    String,
    Number,
    And,
    Class,
    Else,
    False,
    For,
    Fun,
    If,
    Nil,
    Or,
    Print,
    Return,
    Super,
    This,
    True,
    Var,
    While,
    Eof,
}

/// A token: a kind and the source span it covers, with its 1-based line.
/// The lexeme is recovered by slicing the source with `start` and `length`.
#[derive(Clone, Copy, Debug, PartialEq, Eq, Structural)]
pub struct Token {
    pub tpe: TokenType,
    pub start: usize,
    pub length: usize,
    pub line: usize,
}

impl Token {
    /// Build a token from its fields.
    pub fn new(tpe: TokenType, start: usize, length: usize, line: usize) -> (t: Token)
        ensures
            t == (Token { tpe, start, length, line }),
    {
        Token { tpe, start, length, line }
    }
}

/// The token the scanner hands out at (and beyond) the end of input.
pub open spec fn eof_token() -> Token {
    Token { tpe: TokenType::Eof, start: 0, length: 0, line: 0 }
}

/// ASCII decimal digit.
pub open spec fn is_digit(c: u8) -> bool {
    ASCII_ZERO <= c && c <= ASCII_NINE
}

/// ASCII letter; identifiers start with one.
pub open spec fn is_alpha(c: u8) -> bool {
    (ASCII_LOWER_A <= c && c <= ASCII_LOWER_Z) || (ASCII_UPPER_A <= c && c <= ASCII_UPPER_Z)
}

/// Where whitespace skipping ends: the position of the first byte that is
/// neither whitespace, a newline, nor part of a `//` comment, and the line
/// counter after the newlines passed over. `in_comment` marks that the scan
/// stands inside a line comment.
pub open spec fn s_skip_ws(src: Seq<u8>, pos: int, line: int, in_comment: bool) -> (int, int)
    decreases src.len() - pos, (if in_comment { 1int } else { 0int }),
{
    if pos < 0 || pos >= src.len() {
        (pos, line)
    } else if in_comment {
        if src[pos] == ASCII_NEWLINE {
            s_skip_ws(src, pos, line, false)
        } else {
            s_skip_ws(src, pos + 1, line, true)
        }
    } else if src[pos] == ASCII_SPACE || src[pos] == ASCII_CR || src[pos] == ASCII_TAB {
        s_skip_ws(src, pos + 1, line, false)
    } else if src[pos] == ASCII_NEWLINE {
        s_skip_ws(src, pos + 1, line + 1, false)
    } else if src[pos] == ASCII_SLASH && pos + 1 < src.len() && src[pos + 1] == ASCII_SLASH {
        s_skip_ws(src, pos + 2, line, true)
    } else {
        (pos, line)
    }
}

/// Skipping whitespace never moves backwards and never leaves the source.
pub proof fn lemma_skip_ws_bounds(src: Seq<u8>, pos: int, line: int, in_comment: bool)
    requires
        0 <= pos <= src.len(),
    ensures
        pos <= s_skip_ws(src, pos, line, in_comment).0 <= src.len(),
    decreases src.len() - pos, (if in_comment { 1int } else { 0int }),
{
    if pos < src.len() {
        if in_comment {
            if src[pos] == ASCII_NEWLINE {
                lemma_skip_ws_bounds(src, pos, line, false);
            } else {
                lemma_skip_ws_bounds(src, pos + 1, line, true);
            }
        } else if src[pos] == ASCII_SPACE || src[pos] == ASCII_CR || src[pos] == ASCII_TAB {
            lemma_skip_ws_bounds(src, pos + 1, line, false);
        } else if src[pos] == ASCII_NEWLINE {
            lemma_skip_ws_bounds(src, pos + 1, line + 1, false);
        } else if src[pos] == ASCII_SLASH && pos + 1 < src.len() && src[pos + 1] == ASCII_SLASH {
            lemma_skip_ws_bounds(src, pos + 2, line, true);
        }
    }
}

/// The position just past the run of digits starting at `pos`.
pub open spec fn s_digits_end(src: Seq<u8>, pos: int) -> int
    decreases src.len() - pos,
{
    if pos < 0 || pos >= src.len() {
        pos
    } else if is_digit(src[pos]) {
        s_digits_end(src, pos + 1)
    } else {
        pos
    }
}

pub proof fn lemma_digits_end_bounds(src: Seq<u8>, pos: int)
    requires
        0 <= pos <= src.len(),
    ensures
        pos <= s_digits_end(src, pos) <= src.len(),
    decreases src.len() - pos,
{
    if pos < src.len() && is_digit(src[pos]) {
        lemma_digits_end_bounds(src, pos + 1);
    }
}

/// The position just past the run of letters and digits starting at `pos`.
pub open spec fn s_ident_end(src: Seq<u8>, pos: int) -> int
    decreases src.len() - pos,
{
    if pos < 0 || pos >= src.len() {
        pos
    } else if is_digit(src[pos]) || is_alpha(src[pos]) {
        s_ident_end(src, pos + 1)
    } else {
        pos
    }
}

pub proof fn lemma_ident_end_bounds(src: Seq<u8>, pos: int)
    requires
        0 <= pos <= src.len(),
    ensures
        pos <= s_ident_end(src, pos) <= src.len(),
    decreases src.len() - pos,
{
    if pos < src.len() && (is_digit(src[pos]) || is_alpha(src[pos])) {
        lemma_ident_end_bounds(src, pos + 1);
    }
}

/// The position of the first `"` at or after `pos`, or the length of the
/// source if the string literal is never closed.
pub open spec fn s_string_end(src: Seq<u8>, pos: int) -> int
    decreases src.len() - pos,
{
    if pos < 0 || pos >= src.len() {
        src.len() as int
    } else if src[pos] == ASCII_QUOTE {
        pos
    } else {
        s_string_end(src, pos + 1)
    }
}

pub proof fn lemma_string_end_bounds(src: Seq<u8>, pos: int)
    requires
        0 <= pos <= src.len(),
    ensures
        pos <= s_string_end(src, pos) <= src.len(),
    decreases src.len() - pos,
{
    if pos < src.len() && src[pos] != ASCII_QUOTE {
        lemma_string_end_bounds(src, pos + 1);
    }
}

/// How many newline bytes lie in `src[from..to]`.
pub open spec fn s_count_newlines(src: Seq<u8>, from: int, to: int) -> int
    decreases to - from,
{
    if from < 0 || from >= to || to > src.len() {
        0
    } else if src[from] == ASCII_NEWLINE {
        1 + s_count_newlines(src, from + 1, to)
    } else {
        s_count_newlines(src, from + 1, to)
    }
}

/// Which keyword the lexeme `src[start..end]` spells, if any; every other
/// lexeme is a plain identifier.
pub open spec fn keyword_type(src: Seq<u8>, start: int, end: int) -> TokenType {
    let n = end - start;
    if n == 3 && src[start] == ASCII_LOWER_A && src[start + 1] == ASCII_LOWER_N && src[start + 2] == ASCII_LOWER_D {
        TokenType::And
    } else if n == 5 && src[start] == ASCII_LOWER_C && src[start + 1] == ASCII_LOWER_L && src[start + 2] == ASCII_LOWER_A
        && src[start + 3] == ASCII_LOWER_S && src[start + 4] == ASCII_LOWER_S {
        TokenType::Class
    } else if n == 4 && src[start] == ASCII_LOWER_E && src[start + 1] == ASCII_LOWER_L && src[start + 2] == ASCII_LOWER_S
        && src[start + 3] == ASCII_LOWER_E {
        TokenType::Else
    } else if n == 5 && src[start] == ASCII_LOWER_F && src[start + 1] == ASCII_LOWER_A && src[start + 2] == ASCII_LOWER_L
        && src[start + 3] == ASCII_LOWER_S && src[start + 4] == ASCII_LOWER_E {
        TokenType::False
    } else if n == 3 && src[start] == ASCII_LOWER_F && src[start + 1] == ASCII_LOWER_O && src[start + 2] == ASCII_LOWER_R {
        TokenType::For
    } else if n == 3 && src[start] == ASCII_LOWER_F && src[start + 1] == ASCII_LOWER_U && src[start + 2] == ASCII_LOWER_N {
        TokenType::Fun
    } else if n == 2 && src[start] == ASCII_LOWER_I && src[start + 1] == ASCII_LOWER_F {
        TokenType::If
    } else if n == 3 && src[start] == ASCII_LOWER_N && src[start + 1] == ASCII_LOWER_I && src[start + 2] == ASCII_LOWER_L {
        TokenType::Nil
    } else if n == 2 && src[start] == ASCII_LOWER_O && src[start + 1] == ASCII_LOWER_R {
        TokenType::Or
    } else if n == 5 && src[start] == ASCII_LOWER_P && src[start + 1] == ASCII_LOWER_R && src[start + 2] == ASCII_LOWER_I
        && src[start + 3] == ASCII_LOWER_N && src[start + 4] == ASCII_LOWER_T {
        TokenType::Print
    } else if n == 6 && src[start] == ASCII_LOWER_R && src[start + 1] == ASCII_LOWER_E && src[start + 2] == ASCII_LOWER_T
        && src[start + 3] == ASCII_LOWER_U && src[start + 4] == ASCII_LOWER_R && src[start + 5] == ASCII_LOWER_N {
        TokenType::Return
    } else if n == 5 && src[start] == ASCII_LOWER_S && src[start + 1] == ASCII_LOWER_U && src[start + 2] == ASCII_LOWER_P
        && src[start + 3] == ASCII_LOWER_E && src[start + 4] == ASCII_LOWER_R {
        TokenType::Super
    } else if n == 4 && src[start] == ASCII_LOWER_T && src[start + 1] == ASCII_LOWER_H && src[start + 2] == ASCII_LOWER_I
        && src[start + 3] == ASCII_LOWER_S {
        TokenType::This
    } else if n == 4 && src[start] == ASCII_LOWER_T && src[start + 1] == ASCII_LOWER_R && src[start + 2] == ASCII_LOWER_U
        && src[start + 3] == ASCII_LOWER_E {
        TokenType::True
    } else if n == 3 && src[start] == ASCII_LOWER_V && src[start + 1] == ASCII_LOWER_A && src[start + 2] == ASCII_LOWER_R {
        TokenType::Var
    } else if n == 5 && src[start] == ASCII_LOWER_W && src[start + 1] == ASCII_LOWER_H && src[start + 2] == ASCII_LOWER_I
        && src[start + 3] == ASCII_LOWER_L && src[start + 4] == ASCII_LOWER_E {
        TokenType::While
    } else {
        TokenType::Identifier
    }
}

/// The outcome of scanning one token: the token (meaningful only when `err`
/// is `None`), the error if scanning failed, and the scanner position and
/// line afterwards.
pub ghost struct ScanStep {
    pub tok: Token,
    pub err: Option<CompileError>,
    pub pos: int,
    pub line: int,
}

/// The dispatch on the first byte of a token, with `start` the byte's
/// position: what token (or error) it yields and where scanning resumes.
pub open spec fn s_dispatch(src: Seq<u8>, start: int, line: int) -> ScanStep {
    let c = src[start];
    if c == ASCII_LPAREN {
        one_char_step(TokenType::LeftParen, start, line)
    } else if c == ASCII_RPAREN {
        one_char_step(TokenType::RightParen, start, line)
    } else if c == ASCII_LBRACE {
        one_char_step(TokenType::LeftBrace, start, line)
    } else if c == ASCII_RBRACE {
        one_char_step(TokenType::RightBrace, start, line)
    } else if c == ASCII_SEMI {
        one_char_step(TokenType::Semicolon, start, line)
    } else if c == ASCII_COMMA {
        one_char_step(TokenType::Comma, start, line)
    } else if c == ASCII_DOT {
        one_char_step(TokenType::Dot, start, line)
    } else if c == ASCII_PLUS {
        one_char_step(TokenType::Plus, start, line)
    } else if c == ASCII_MINUS {
        one_char_step(TokenType::Minus, start, line)
    } else if c == ASCII_STAR {
        one_char_step(TokenType::Star, start, line)
    } else if c == ASCII_SLASH {
        one_char_step(TokenType::Slash, start, line)
    } else if c == ASCII_BANG {
        two_char_step(TokenType::Bang, TokenType::BangEqual, src, start, line)
    } else if c == ASCII_EQ {
        two_char_step(TokenType::Equal, TokenType::EqualEqual, src, start, line)
    } else if c == ASCII_LT {
        two_char_step(TokenType::Less, TokenType::LessEqual, src, start, line)
    } else if c == ASCII_GT {
        two_char_step(TokenType::Greater, TokenType::GreaterEqual, src, start, line)
    } else if c == ASCII_QUOTE {
        let q = s_string_end(src, start + 1);
        if q >= src.len() {
            ScanStep {
                tok: eof_token(),
                err: Some(CompileError {
                    kind: CompileErrorKind::UnterminatedString,
                    start: start as usize,
                    length: (src.len() - start) as usize,
                }),
                pos: q,
                line: line + s_count_newlines(src, start + 1, q),
            }
        } else {
            let nl = line + s_count_newlines(src, start + 1, q);
            ScanStep {
                tok: Token {
                    tpe: TokenType::String,
                    start: start as usize,
                    length: (q + 1 - start) as usize,
                    line: nl as usize,
                },
                err: None,
                pos: q + 1,
                line: nl,
            }
        }
    } else if is_digit(c) {
        let d = s_digits_end(src, start + 1);
        let e = if d < src.len() && src[d] == ASCII_DOT && d + 1 < src.len() && is_digit(
            src[d + 1],
        ) {
            s_digits_end(src, d + 1)
        } else {
            d
        };
        ScanStep {
            tok: Token {
                tpe: TokenType::Number,
                start: start as usize,
                length: (e - start) as usize,
                line: line as usize,
            },
            err: None,
            pos: e,
            line,
        }
    } else if is_alpha(c) {
        let e = s_ident_end(src, start + 1);
        ScanStep {
            tok: Token {
                tpe: keyword_type(src, start, e),
                start: start as usize,
                length: (e - start) as usize,
                line: line as usize,
            },
            err: None,
            pos: e,
            line,
        }
    } else {
        ScanStep {
            tok: eof_token(),
            err: Some(CompileError {
                kind: CompileErrorKind::UnexpectedCharacter,
                start: start as usize,
                length: 1,
            }),
            pos: start + 1,
            line,
        }
    }
}

/// A single-byte punctuation token at `start`.
pub open spec fn one_char_step(tpe: TokenType, start: int, line: int) -> ScanStep {
    ScanStep {
        tok: Token { tpe, start: start as usize, length: 1, line: line as usize },
        err: None,
        pos: start + 1,
        line,
    }
}

/// An operator that becomes `two` when a `=` follows, else `one`.
pub open spec fn two_char_step(
    one: TokenType,
    two: TokenType,
    src: Seq<u8>,
    start: int,
    line: int,
) -> ScanStep {
    if start + 1 < src.len() && src[start + 1] == ASCII_EQ {
        ScanStep {
            tok: Token { tpe: two, start: start as usize, length: 2, line: line as usize },
            err: None,
            pos: start + 2,
            line,
        }
    } else {
        ScanStep {
            tok: Token { tpe: one, start: start as usize, length: 1, line: line as usize },
            err: None,
            pos: start + 1,
            line,
        }
    }
}

/// Scanning one token from position `pos` on line `line`: skip whitespace
/// and comments, then dispatch on the first byte; at the end of input the
/// result is the `Eof` token, indefinitely.
pub open spec fn s_scan_token(src: Seq<u8>, pos: int, line: int) -> ScanStep {
    let (p, l) = s_skip_ws(src, pos, line, false);
    if p >= src.len() {
        ScanStep { tok: eof_token(), err: None, pos: p, line: l }
    } else {
        s_dispatch(src, p, l)
    }
}

/// One scan step never moves backwards, stays within the source, and moves
/// strictly forward unless it reports end of input.
pub proof fn lemma_scan_token_progress(src: Seq<u8>, pos: int, line: int)
    requires
        0 <= pos <= src.len(),
    ensures
        pos <= s_scan_token(src, pos, line).pos <= src.len(),
        s_scan_token(src, pos, line).err is None && s_scan_token(src, pos, line).tok.tpe
            != TokenType::Eof ==> s_scan_token(src, pos, line).pos > pos,
{
    lemma_skip_ws_bounds(src, pos, line, false);
    let (p, l) = s_skip_ws(src, pos, line, false);
    if p < src.len() {
        let c = src[p];
        if c == ASCII_QUOTE {
            lemma_string_end_bounds(src, p + 1);
        } else if is_digit(c) {
            lemma_digits_end_bounds(src, p + 1);
            let d = s_digits_end(src, p + 1);
            if d < src.len() && src[d] == ASCII_DOT && d + 1 < src.len() && is_digit(src[d + 1]) {
                lemma_digits_end_bounds(src, d + 1);
            }
        } else if is_alpha(c) {
            lemma_ident_end_bounds(src, p + 1);
        }
    }
}

/// The whole token stream of a source: tokens up to and including the
/// trailing `Eof`, or the tokens before the first lexical error together
/// with that error.
pub open spec fn s_scan_all(src: Seq<u8>, pos: int, line: int) -> (Seq<Token>, Option<
    CompileError,
>)
    decreases src.len() - pos + 1,
        when 0 <= pos <= src.len()
        via s_scan_all_decreases
{
    let st = s_scan_token(src, pos, line);
    if st.err is Some {
        (Seq::empty(), st.err)
    } else if st.tok.tpe == TokenType::Eof {
        (seq![st.tok], None)
    } else {
        let rest = s_scan_all(src, st.pos, st.line);
        (seq![st.tok] + rest.0, rest.1)
    }
}

#[via_fn]
proof fn s_scan_all_decreases(src: Seq<u8>, pos: int, line: int) {
    lemma_scan_token_progress(src, pos, line);
}

/// The scanner: a cursor over the source bytes with the current line and
/// the start of the token being scanned.
pub struct Scanner<'a> {
    pub source: &'a [u8],
    pub pos: usize,
    pub line: usize,
    pub start: usize,
}

impl<'a> Scanner<'a> {
    /// A fresh scanner at the start of `source`, on line 1.
    pub fn new(source: &'a [u8]) -> (s: Scanner<'a>)
        ensures
            s.source@ == source@,
            s.pos == 0,
            s.line == 1,
            s.start == 0,
    {
        Scanner { source, pos: 0, line: 1, start: 0 }
    }

    /// Cursor and line are always within bounds.
    pub open spec fn wf(self) -> bool {
        self.pos <= self.source@.len()
    }

    /// Advance past whitespace, newlines (counting lines) and `//` comments.
    pub fn skip_whitespace(&mut self)
        requires
            old(self).wf(),
            old(self).line + old(self).source@.len() - old(self).pos <= usize::MAX,
        ensures
            final(self).wf(),
            final(self).source@ == old(self).source@,
            final(self).start == old(self).start,
            final(self).line + final(self).source@.len() - final(self).pos <= usize::MAX,
            (final(self).pos as int, final(self).line as int) == s_skip_ws(
                old(self).source@,
                old(self).pos as int,
                old(self).line as int,
                false,
            ),
    {
        let ghost target = s_skip_ws(self.source@, self.pos as int, self.line as int, false);
        loop
            invariant_except_break
                self.wf(),
                self.source@ == old(self).source@,
                self.start == old(self).start,
                self.line + (self.source@.len() - self.pos) <= usize::MAX,
                s_skip_ws(self.source@, self.pos as int, self.line as int, false) == target,
            ensures
                self.wf(),
                self.source@ == old(self).source@,
                self.start == old(self).start,
                self.line + (self.source@.len() - self.pos) <= usize::MAX,
                (self.pos as int, self.line as int) == target,
            decreases self.source@.len() - self.pos,
        {
            if self.pos >= self.source.len() {
                break;
            }
            let c = self.source[self.pos];
            if c == ASCII_SPACE || c == ASCII_CR || c == ASCII_TAB {
                self.pos = self.pos + 1;
            } else if c == ASCII_NEWLINE {
                self.line = self.line + 1;
                self.pos = self.pos + 1;
            } else if c == ASCII_SLASH && self.pos + 1 < self.source.len() && self.source[self.pos + 1]
                == ASCII_SLASH {
                // A line comment: consume up to, but not including, the
                // terminating newline.
                proof {
                    assert(s_skip_ws(
                        self.source@,
                        self.pos as int,
                        self.line as int,
                        false,
                    ) == s_skip_ws(self.source@, self.pos + 2, self.line as int, true));
                }
                let ghost entry_pos = self.pos as int;
                self.pos = self.pos + 2;
                while self.pos < self.source.len() && self.source[self.pos] != ASCII_NEWLINE
                    invariant
                        self.wf(),
                        self.source@ == old(self).source@,
                        self.start == old(self).start,
                        self.pos >= entry_pos + 2,
                        self.line + (self.source@.len() - self.pos) <= usize::MAX,
                        s_skip_ws(self.source@, self.pos as int, self.line as int, true)
                            == target,
                    decreases self.source@.len() - self.pos,
                {
                    self.pos = self.pos + 1;
                }
            } else {
                break;
            }
        }
    }

    /// If the next byte equals `expected`, consume it and report success.
    pub fn match_token(&mut self, expected: u8) -> (r: bool)
        requires
            old(self).wf(),
        ensures
            final(self).wf(),
            final(self).source@ == old(self).source@,
            final(self).start == old(self).start,
            final(self).line == old(self).line,
            r == (old(self).pos < old(self).source@.len() && old(self).source@[old(self).pos as int] == expected),
            final(self).pos == (if r {
                old(self).pos + 1
            } else {
                old(self).pos as int
            }),
    {
        if self.pos < self.source.len() && self.source[self.pos] == expected {
            self.pos = self.pos + 1;
            true
        } else {
            false
        }
    }

    /// Consume the run of digits under the cursor.
    pub fn consume_digits(&mut self)
        requires
            old(self).wf(),
        ensures
            final(self).wf(),
            final(self).source@ == old(self).source@,
            final(self).start == old(self).start,
            final(self).line == old(self).line,
            final(self).pos == s_digits_end(old(self).source@, old(self).pos as int),
    {
        while self.pos < self.source.len() && self.source[self.pos] >= ASCII_ZERO && self.source[
            self.pos
        ] <= ASCII_NINE
            invariant
                self.wf(),
                self.source@ == old(self).source@,
                self.start == old(self).start,
                self.line == old(self).line,
                s_digits_end(self.source@, self.pos as int) == s_digits_end(
                    old(self).source@,
                    old(self).pos as int,
                ),
            decreases self.source@.len() - self.pos,
        {
            self.pos = self.pos + 1;
        }
    }

    /// The token of kind `tpe` spanning from `start` to the cursor.
    pub fn token(&self, tpe: TokenType) -> (t: Token)
        requires
            self.start <= self.pos,
        ensures
            t == (Token {
                tpe,
                start: self.start,
                length: (self.pos - self.start) as usize,
                line: self.line,
            }),
    {
        Token { tpe, start: self.start, length: self.pos - self.start, line: self.line }
    }

    /// Resolve the identifier lexeme `source[start..current_pos]` against
    /// the keyword set.
    pub fn identifier_type(&self, current_pos: usize) -> (t: TokenType)
        requires
            self.start <= current_pos <= self.source@.len(),
        ensures
            t == keyword_type(self.source@, self.start as int, current_pos as int),
    {
        let s = self.start;
        let src = self.source;
        let n = current_pos - s;
        if n == 3 && src[s] == ASCII_LOWER_A && src[s + 1] == ASCII_LOWER_N && src[s + 2] == ASCII_LOWER_D {
            TokenType::And
        } else if n == 5 && src[s] == ASCII_LOWER_C && src[s + 1] == ASCII_LOWER_L && src[s + 2] == ASCII_LOWER_A && src[s
            + 3] == ASCII_LOWER_S && src[s + 4] == ASCII_LOWER_S {
            TokenType::Class
        } else if n == 4 && src[s] == ASCII_LOWER_E && src[s + 1] == ASCII_LOWER_L && src[s + 2] == ASCII_LOWER_S && src[s
            + 3] == ASCII_LOWER_E {
            TokenType::Else
        } else if n == 5 && src[s] == ASCII_LOWER_F && src[s + 1] == ASCII_LOWER_A && src[s + 2] == ASCII_LOWER_L && src[s
            + 3] == ASCII_LOWER_S && src[s + 4] == ASCII_LOWER_E {
            TokenType::False
        } else if n == 3 && src[s] == ASCII_LOWER_F && src[s + 1] == ASCII_LOWER_O && src[s + 2] == ASCII_LOWER_R {
            TokenType::For
        } else if n == 3 && src[s] == ASCII_LOWER_F && src[s + 1] == ASCII_LOWER_U && src[s + 2] == ASCII_LOWER_N {
            TokenType::Fun
        } else if n == 2 && src[s] == ASCII_LOWER_I && src[s + 1] == ASCII_LOWER_F {
            TokenType::If
        } else if n == 3 && src[s] == ASCII_LOWER_N && src[s + 1] == ASCII_LOWER_I && src[s + 2] == ASCII_LOWER_L {
            TokenType::Nil
        } else if n == 2 && src[s] == ASCII_LOWER_O && src[s + 1] == ASCII_LOWER_R {
            TokenType::Or
        } else if n == 5 && src[s] == ASCII_LOWER_P && src[s + 1] == ASCII_LOWER_R && src[s + 2] == ASCII_LOWER_I && src[s
            + 3] == ASCII_LOWER_N && src[s + 4] == ASCII_LOWER_T {
            TokenType::Print
        } else if n == 6 && src[s] == ASCII_LOWER_R && src[s + 1] == ASCII_LOWER_E && src[s + 2] == ASCII_LOWER_T && src[s
            + 3] == ASCII_LOWER_U && src[s + 4] == ASCII_LOWER_R && src[s + 5] == ASCII_LOWER_N {
            TokenType::Return
        } else if n == 5 && src[s] == ASCII_LOWER_S && src[s + 1] == ASCII_LOWER_U && src[s + 2] == ASCII_LOWER_P && src[s
            + 3] == ASCII_LOWER_E && src[s + 4] == ASCII_LOWER_R {
            TokenType::Super
        } else if n == 4 && src[s] == ASCII_LOWER_T && src[s + 1] == ASCII_LOWER_H && src[s + 2] == ASCII_LOWER_I && src[s
            + 3] == ASCII_LOWER_S {
            TokenType::This
        } else if n == 4 && src[s] == ASCII_LOWER_T && src[s + 1] == ASCII_LOWER_R && src[s + 2] == ASCII_LOWER_U && src[s
            + 3] == ASCII_LOWER_E {
            TokenType::True
        } else if n == 3 && src[s] == ASCII_LOWER_V && src[s + 1] == ASCII_LOWER_A && src[s + 2] == ASCII_LOWER_R {
            TokenType::Var
        } else if n == 5 && src[s] == ASCII_LOWER_W && src[s + 1] == ASCII_LOWER_H && src[s + 2] == ASCII_LOWER_I && src[s
            + 3] == ASCII_LOWER_L && src[s + 4] == ASCII_LOWER_E {
            TokenType::While
        } else {
            TokenType::Identifier
        }
    }

    /// Scan one string literal; the opening quote stands at `start` and has
    /// been consumed. Newlines inside the literal advance the line counter.
    #[verifier::loop_isolation(false)]
    pub fn string(&mut self) -> (r: Result<Token, CompileError>)
        requires
            old(self).wf(),
            old(self).pos == old(self).start + 1,
            old(self).start < old(self).source@.len(),
            old(self).line + old(self).source@.len() - old(self).pos <= usize::MAX,
        ensures
            final(self).wf(),
            final(self).source@ == old(self).source@,
            final(self).start == old(self).start,
            final(self).line + final(self).source@.len() - final(self).pos <= usize::MAX,
            ({
                let q = s_string_end(old(self).source@, old(self).pos as int);
                if q >= old(self).source@.len() {
                    r == Err::<Token, CompileError>(
                        CompileError {
                            kind: CompileErrorKind::UnterminatedString,
                            start: old(self).start,
                            length: (old(self).source@.len() - old(self).start) as usize,
                        },
                    )
                } else {
                    r == Ok::<Token, CompileError>(
                        Token {
                            tpe: TokenType::String,
                            start: old(self).start,
                            length: (q + 1 - old(self).start) as usize,
                            line: (old(self).line + s_count_newlines(
                                old(self).source@,
                                old(self).pos as int,
                                q,
                            )) as usize,
                        },
                    ) && final(self).pos == q + 1 && final(self).line == old(self).line
                        + s_count_newlines(old(self).source@, old(self).pos as int, q)
                        && final(self).start == old(self).start && final(self).wf()
                }
            }),
    {
        let ghost src = self.source@;
        let ghost p0 = self.pos as int;
        let ghost q = s_string_end(src, p0);
        proof {
            lemma_string_end_bounds(src, p0);
        }
        while self.pos < self.source.len() && self.source[self.pos] != ASCII_QUOTE
            invariant
                self.wf(),
                self.source@ == src,
                self.start == old(self).start,
                self.pos >= p0,
                self.pos <= q,
                self.line + (self.source@.len() - self.pos) <= usize::MAX,
                s_string_end(src, self.pos as int) == q,
                self.line == old(self).line + s_count_newlines(src, p0, self.pos as int),
            decreases self.source@.len() - self.pos,
        {
            proof {
                let p = self.pos as int;
                lemma_string_end_bounds(src, p + 1);
                lemma_count_newlines_split(src, p0, p, p + 1);
                assert(s_count_newlines(src, p + 1, p + 1) == 0);
            }
            if self.source[self.pos] == ASCII_NEWLINE {
                self.line = self.line + 1;
            }
            self.pos = self.pos + 1;
        }
        proof {
            // At exit the cursor stands on the closing quote or at the end,
            // so the newlines counted so far are all of them up to `q`.
            assert(self.pos == q);
        }
        if self.pos >= self.source.len() {
            Err(
                CompileError {
                    kind: CompileErrorKind::UnterminatedString,
                    start: self.start,
                    length: self.source.len() - self.start,
                },
            )
        } else {
            self.pos = self.pos + 1;
            Ok(self.token(TokenType::String))
        }
    }

    /// Scan one number literal; its first digit stands at `start` and has
    /// been consumed. A `.` is taken only when another digit follows it.
    pub fn number(&mut self) -> (r: Result<Token, CompileError>)
        requires
            old(self).wf(),
            old(self).pos == old(self).start + 1,
            old(self).start < old(self).source@.len(),
        ensures
            final(self).wf(),
            final(self).source@ == old(self).source@,
            final(self).start == old(self).start,
            final(self).line == old(self).line,
            final(self).pos >= old(self).pos,
            ({
                let src = old(self).source@;
                let d = s_digits_end(src, old(self).pos as int);
                let e = if d < src.len() && src[d] == ASCII_DOT && d + 1 < src.len() && is_digit(
                    src[d + 1],
                ) {
                    s_digits_end(src, d + 1)
                } else {
                    d
                };
                final(self).pos == e && r == Ok::<Token, CompileError>(
                    Token {
                        tpe: TokenType::Number,
                        start: old(self).start,
                        length: (e - old(self).start) as usize,
                        line: old(self).line,
                    },
                )
            }),
    {
        self.consume_digits();
        proof {
            lemma_digits_end_bounds(self.source@, old(self).pos as int);
        }
        if self.pos < self.source.len() && self.source[self.pos] == ASCII_DOT && self.pos + 1
            < self.source.len() && self.source[self.pos + 1] >= ASCII_ZERO && self.source[self.pos + 1]
            <= ASCII_NINE {
            self.pos = self.pos + 1;
            let ghost frac_start = self.pos as int;
            self.consume_digits();
            proof {
                lemma_digits_end_bounds(self.source@, frac_start);
            }
        }
        Ok(self.token(TokenType::Number))
    }

    /// Scan one identifier or keyword; its first letter stands at `start`
    /// and has been consumed.
    pub fn identifier(&mut self) -> (r: Result<Token, CompileError>)
        requires
            old(self).wf(),
            old(self).pos == old(self).start + 1,
            old(self).start < old(self).source@.len(),
        ensures
            final(self).wf(),
            final(self).source@ == old(self).source@,
            final(self).start == old(self).start,
            final(self).line == old(self).line,
            final(self).pos >= old(self).pos,
            ({
                let src = old(self).source@;
                let e = s_ident_end(src, old(self).pos as int);
                final(self).pos == e && r == Ok::<Token, CompileError>(
                    Token {
                        tpe: keyword_type(src, old(self).start as int, e),
                        start: old(self).start,
                        length: (e - old(self).start) as usize,
                        line: old(self).line,
                    },
                )
            }),
    {
        while self.pos < self.source.len() && (self.source[self.pos] >= ASCII_ZERO && self.source[
            self.pos
        ] <= ASCII_NINE || self.source[self.pos] >= ASCII_LOWER_A && self.source[self.pos] <= ASCII_LOWER_Z
            || self.source[self.pos] >= ASCII_UPPER_A && self.source[self.pos] <= ASCII_UPPER_Z)
            invariant
                self.wf(),
                self.source@ == old(self).source@,
                self.start == old(self).start,
                self.line == old(self).line,
                self.start <= self.pos,
                self.pos >= old(self).pos,
                s_ident_end(self.source@, self.pos as int) == s_ident_end(
                    old(self).source@,
                    old(self).pos as int,
                ),
            decreases self.source@.len() - self.pos,
        {
            self.pos = self.pos + 1;
        }
        let t = self.identifier_type(self.pos);
        Ok(self.token(t))
    }

    /// Dispatch on the first byte `c` of a token; `c` stands at `start` and
    /// has been consumed.
    pub fn match_char(&mut self, c: u8) -> (r: Result<Token, CompileError>)
        requires
            old(self).wf(),
            old(self).pos == old(self).start + 1,
            old(self).start < old(self).source@.len(),
            old(self).source@[old(self).start as int] == c,
            old(self).line + old(self).source@.len() - old(self).pos <= usize::MAX,
        ensures
            final(self).wf(),
            final(self).source@ == old(self).source@,
            final(self).line + final(self).source@.len() - final(self).pos <= usize::MAX,
            ({
                let st = s_dispatch(old(self).source@, old(self).start as int, old(self).line as int);
                match r {
                    Ok(t) => st.err is None && t == st.tok && final(self).pos == st.pos && final(self).line == st.line,
                    Err(e) => st.err == Some(e),
                }
            }),
    {
        proof {
            lemma_string_end_bounds(self.source@, self.pos as int);
        }
        if c == ASCII_LPAREN {
            Ok(self.token(TokenType::LeftParen))
        } else if c == ASCII_RPAREN {
            Ok(self.token(TokenType::RightParen))
        } else if c == ASCII_LBRACE {
            Ok(self.token(TokenType::LeftBrace))
        } else if c == ASCII_RBRACE {
            Ok(self.token(TokenType::RightBrace))
        } else if c == ASCII_SEMI {
            Ok(self.token(TokenType::Semicolon))
        } else if c == ASCII_COMMA {
            Ok(self.token(TokenType::Comma))
        } else if c == ASCII_DOT {
            Ok(self.token(TokenType::Dot))
        } else if c == ASCII_PLUS {
            Ok(self.token(TokenType::Plus))
        } else if c == ASCII_MINUS {
            Ok(self.token(TokenType::Minus))
        } else if c == ASCII_STAR {
            Ok(self.token(TokenType::Star))
        } else if c == ASCII_SLASH {
            Ok(self.token(TokenType::Slash))
        } else if c == ASCII_BANG {
            if self.match_token(ASCII_EQ) {
                Ok(self.token(TokenType::BangEqual))
            } else {
                Ok(self.token(TokenType::Bang))
            }
        } else if c == ASCII_EQ {
            if self.match_token(ASCII_EQ) {
                Ok(self.token(TokenType::EqualEqual))
            } else {
                Ok(self.token(TokenType::Equal))
            }
        } else if c == ASCII_LT {
            if self.match_token(ASCII_EQ) {
                Ok(self.token(TokenType::LessEqual))
            } else {
                Ok(self.token(TokenType::Less))
            }
        } else if c == ASCII_GT {
            if self.match_token(ASCII_EQ) {
                Ok(self.token(TokenType::GreaterEqual))
            } else {
                Ok(self.token(TokenType::Greater))
            }
        } else if c == ASCII_QUOTE {
            self.string()
        } else if c >= ASCII_ZERO && c <= ASCII_NINE {
            self.number()
        } else if c >= ASCII_LOWER_A && c <= ASCII_LOWER_Z || c >= ASCII_UPPER_A && c <= ASCII_UPPER_Z {
            self.identifier()
        } else {
            Err(
                CompileError {
                    kind: CompileErrorKind::UnexpectedCharacter,
                    start: self.start,
                    length: 1,
                },
            )
        }
    }

    /// Scan the next token, or the error that cuts scanning short. At the
    /// end of input this returns the `Eof` token, indefinitely.
    pub fn scan_token(&mut self) -> (r: Result<Token, CompileError>)
        requires
            old(self).wf(),
            old(self).line + old(self).source@.len() - old(self).pos <= usize::MAX,
        ensures
            final(self).wf(),
            final(self).source@ == old(self).source@,
            final(self).line + final(self).source@.len() - final(self).pos <= usize::MAX,
            ({
                let st = s_scan_token(old(self).source@, old(self).pos as int, old(self).line as int);
                match r {
                    Ok(t) => st.err is None && t == st.tok && final(self).pos == st.pos && final(self).line == st.line,
                    Err(e) => st.err == Some(e),
                }
            }),
    {
        self.skip_whitespace();
        if self.pos >= self.source.len() {
            return Ok(Token::new(TokenType::Eof, 0, 0, 0));
        }
        let c = self.source[self.pos];
        self.start = self.pos;
        self.pos = self.pos + 1;
        let r = self.match_char(c);
        proof {
            if r is Ok {
                lemma_scan_token_progress(old(self).source@, old(self).pos as int, old(self).line as int);
            }
        }
        r
    }
}

/// Counting newlines splits at any midpoint.
pub proof fn lemma_count_newlines_split(src: Seq<u8>, a: int, b: int, c: int)
    requires
        0 <= a <= b <= c <= src.len(),
    ensures
        s_count_newlines(src, a, c) == s_count_newlines(src, a, b) + s_count_newlines(
            src,
            b,
            c,
        ),
    decreases b - a,
{
    if a < b {
        lemma_count_newlines_split(src, a + 1, b, c);
    }
}

/// The structure of a whole scan: without a lexical error the stream ends
/// with exactly one `Eof` token; with one, no `Eof` token appears at all.
pub proof fn lemma_scan_all_wf(src: Seq<u8>, pos: int, line: int)
    requires
        0 <= pos <= src.len(),
    ensures
        ({
            let (toks, e) = s_scan_all(src, pos, line);
            &&& (e is None ==> toks.len() >= 1 && toks.last() == eof_token())
            &&& (e is None ==> forall|i: int|
                0 <= i < toks.len() - 1 ==> (#[trigger] toks[i]).tpe != TokenType::Eof)
            &&& (e is Some ==> forall|i: int|
                0 <= i < toks.len() ==> (#[trigger] toks[i]).tpe != TokenType::Eof)
        }),
    decreases src.len() - pos + 1,
{
    let st = s_scan_token(src, pos, line);
    lemma_scan_token_progress(src, pos, line);
    if st.err is None && st.tok.tpe != TokenType::Eof {
        lemma_scan_all_wf(src, st.pos, st.line);
        let (rest, e) = s_scan_all(src, st.pos, st.line);
        let (toks, e2) = s_scan_all(src, pos, line);
        assert(toks == seq![st.tok] + rest);
        assert(forall|i: int| 1 <= i < toks.len() ==> toks[i] == rest[i - 1]);
    }
}

impl<'a> Scanner<'a> {
    /// Scan the whole source: the tokens up to and including the trailing
    /// `Eof`, or the tokens before the first lexical error together with
    /// that error.
    #[verifier::loop_isolation(false)]
    pub fn scan_all(&mut self) -> (r: (Vec<Token>, Option<CompileError>))
        requires
            old(self).wf(),
            old(self).line + old(self).source@.len() - old(self).pos <= usize::MAX,
        ensures
            ({
                let (ts, e) = s_scan_all(
                    old(self).source@,
                    old(self).pos as int,
                    old(self).line as int,
                );
                r.0@ == ts && r.1 == e
            }),
    {
        let ghost src = self.source@;
        let ghost p0 = self.pos as int;
        let ghost l0 = self.line as int;
        let mut toks: Vec<Token> = Vec::new();
        loop
            invariant
                self.wf(),
                self.source@ == src,
                self.line + self.source@.len() - self.pos <= usize::MAX,
                s_scan_all(src, p0, l0).0 == toks@ + s_scan_all(
                    src,
                    self.pos as int,
                    self.line as int,
                ).0,
                s_scan_all(src, p0, l0).1 == s_scan_all(src, self.pos as int, self.line as int).1,
            decreases self.source@.len() - self.pos,
        {
            let ghost pos_before = self.pos as int;
            let ghost line_before = self.line as int;
            proof {
                lemma_scan_token_progress(src, pos_before, line_before);
            }
            match self.scan_token() {
                Err(e) => {
                    proof {
                        assert(s_scan_all(src, pos_before, line_before) == (
                            Seq::<Token>::empty(),
                            Some(e),
                        ));
                        assert(toks@ + Seq::<Token>::empty() =~= toks@);
                    }
                    return (toks, Some(e));
                },
                Ok(t) => {
                    let ghost rest = s_scan_all(src, self.pos as int, self.line as int);
                    if t.tpe == TokenType::Eof {
                        toks.push(t);
                        proof {
                            assert(s_scan_all(src, pos_before, line_before) == (
                                seq![t],
                                Option::<CompileError>::None,
                            ));
                            assert(toks@ + seq![t] =~= toks@.push(t));
                        }
                        return (toks, None);
                    }
                    toks.push(t);
                    proof {
                        assert(s_scan_all(src, pos_before, line_before).0 == seq![t] + rest.0);
                        assert(s_scan_all(src, pos_before, line_before).1 == rest.1);
                        assert(toks@.drop_last() + (seq![t] + rest.0) =~= toks@ + rest.0);
                    }
                },
            }
        }
    }
}

} // verus!
