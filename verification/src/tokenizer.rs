//! A lazy JSON tokenizer that tracks the source span of every token.
//!
//! The tokenizer works on the UTF-8 bytes of its input. Its behaviour is
//! specified by [`spec_get_token`], a function of the input bytes and the
//! current position.

use crate::loc::{utf8_bytes, Loc};
use std::sync::Arc;
use vstd::prelude::*;

verus! {

// Byte values of the ASCII characters the JSON grammar mentions.
pub const TAB: u8 = 9;
pub const NEWLINE: u8 = 10;
pub const CARRIAGE_RETURN: u8 = 13;
pub const SPACE: u8 = 32;
pub const QUOTE: u8 = 34;
pub const PLUS: u8 = 43;
pub const COMMA: u8 = 44;
pub const MINUS: u8 = 45;
pub const DOT: u8 = 46;
pub const SLASH: u8 = 47;
pub const DIGIT_0: u8 = 48;
pub const DIGIT_9: u8 = 57;
pub const COLON: u8 = 58;
pub const UPPER_A: u8 = 65;
pub const UPPER_E: u8 = 69;
pub const UPPER_F: u8 = 70;
pub const OPEN_BRACKET: u8 = 91;
pub const BACKSLASH: u8 = 92;
pub const CLOSE_BRACKET: u8 = 93;
pub const LOWER_A: u8 = 97;
pub const LOWER_B: u8 = 98;
pub const LOWER_E: u8 = 101;
pub const LOWER_F: u8 = 102;
pub const LOWER_N: u8 = 110;
pub const LOWER_R: u8 = 114;
pub const LOWER_T: u8 = 116;
pub const LOWER_U: u8 = 117;
pub const OPEN_BRACE: u8 = 123;
pub const CLOSE_BRACE: u8 = 125;

/// The information carried by every located error.
#[derive(Debug)]
pub struct LocationFound {
    pub src: Loc,
    pub label: String,
    pub msg: String,
    pub code: String,
}

/// The ways tokenization can fail.
#[derive(Debug)]
pub enum TokenizerError {
    UnexpectedEof(LocationFound),
    UnexpectedToken(LocationFound),
    UnexpectedEscapeSequence(LocationFound),
    InvalidNumberLiteral(LocationFound),
}

/// The variant of a [`TokenizerError`].
#[derive(Clone, Copy, Debug, PartialEq, Eq, Structural)]
pub enum TokErrKind {
    Eof,
    Token,
    Escape,
    Number,
}

/// The mathematical content of a tokenizer error: its variant, its span and
/// its message.
pub struct TokErrSpec {
    pub kind: TokErrKind,
    pub start: int,
    pub len: int,
    pub msg: Seq<char>,
}

pub open spec fn tok_err(kind: TokErrKind, start: int, len: int, msg: Seq<char>) -> TokErrSpec {
    TokErrSpec { kind, start, len, msg }
}

impl TokenizerError {
    pub open spec fn kind(&self) -> TokErrKind {
        match self {
            TokenizerError::UnexpectedEof(_) => TokErrKind::Eof,
            TokenizerError::UnexpectedToken(_) => TokErrKind::Token,
            TokenizerError::UnexpectedEscapeSequence(_) => TokErrKind::Escape,
            TokenizerError::InvalidNumberLiteral(_) => TokErrKind::Number,
        }
    }

    pub open spec fn found(&self) -> LocationFound {
        match self {
            TokenizerError::UnexpectedEof(f) => *f,
            TokenizerError::UnexpectedToken(f) => *f,
            TokenizerError::UnexpectedEscapeSequence(f) => *f,
            TokenizerError::InvalidNumberLiteral(f) => *f,
        }
    }

    /// An end-of-input error at `loc` with help text `msg`.
    pub fn unexpected_eof(loc: Loc, msg: &str) -> (r: Self)
        ensures
            r is UnexpectedEof,
            r.found().src == loc,
            r.found().msg@ == msg@,
            r.found().label@ == "End of Input"@,
            r.found().code@ == "parse::unexpected_eof"@,
    {
        TokenizerError::UnexpectedEof(
            LocationFound {
                src: loc,
                label: "End of Input".to_string(),
                msg: msg.to_string(),
                code: "parse::unexpected_eof".to_string(),
            },
        )
    }

    /// An unexpected-token error at `loc` with help text `msg`.
    pub fn unexpected_token(loc: Loc, msg: &str) -> (r: Self)
        ensures
            r is UnexpectedToken,
            r.found().src == loc,
            r.found().msg@ == msg@,
            r.found().label@ == "Found"@,
            r.found().code@ == "parse::unexpected_token"@,
    {
        TokenizerError::UnexpectedToken(
            LocationFound {
                src: loc,
                label: "Found".to_string(),
                msg: msg.to_string(),
                code: "parse::unexpected_token".to_string(),
            },
        )
    }

    /// An invalid-escape-sequence error at `loc` with help text `msg`.
    pub fn unknown_escape_sequence(loc: Loc, msg: &str) -> (r: Self)
        ensures
            r is UnexpectedEscapeSequence,
            r.found().src == loc,
            r.found().msg@ == msg@,
            r.found().label@ == "Found"@,
            r.found().code@ == "parse::invalid_string_literal"@,
    {
        TokenizerError::UnexpectedEscapeSequence(
            LocationFound {
                src: loc,
                label: "Found".to_string(),
                msg: msg.to_string(),
                code: "parse::invalid_string_literal".to_string(),
            },
        )
    }

    /// An invalid-number-literal error at `loc` with help text `msg`.
    pub fn invalid_number(loc: Loc, msg: &str) -> (r: Self)
        ensures
            r is InvalidNumberLiteral,
            r.found().src == loc,
            r.found().msg@ == msg@,
            r.found().label@ == "Found"@,
            r.found().code@ == "parse::invalid_number_literal"@,
    {
        TokenizerError::InvalidNumberLiteral(
            LocationFound {
                src: loc,
                label: "Found".to_string(),
                msg: msg.to_string(),
                code: "parse::invalid_number_literal".to_string(),
            },
        )
    }
}

/// The message of a tokenizer error of kind `k`.
pub open spec fn tok_err_message(k: TokErrKind) -> Seq<char> {
    match k {
        TokErrKind::Eof => "Encountered EOF while parsing."@,
        TokErrKind::Token => "Encountered unexpected token while parsing."@,
        TokErrKind::Escape => "Encountered unknown escape sequence while parsing string literal"@,
        TokErrKind::Number => "Encountered invalid number literal"@,
    }
}

impl TokenizerError {
    /// The message of the error.
    pub fn to_string(&self) -> (r: String)
        ensures
            r@ == tok_err_message(self@.kind),
    {
        match self {
            TokenizerError::UnexpectedEof(_) => "Encountered EOF while parsing.".to_string(),
            TokenizerError::UnexpectedToken(_) => "Encountered unexpected token while parsing.".to_string(),
            TokenizerError::UnexpectedEscapeSequence(_) =>
                "Encountered unknown escape sequence while parsing string literal".to_string(),
            TokenizerError::InvalidNumberLiteral(_) => "Encountered invalid number literal".to_string(),
        }
    }
}

impl View for TokenizerError {
    type V = TokErrSpec;

    open spec fn view(&self) -> TokErrSpec {
        tok_err(
            self.kind(),
            self.found().src.start as int,
            self.found().src.len as int,
            self.found().msg@,
        )
    }
}

/// The kinds of JSON tokens.
#[derive(Clone, Copy, Debug, PartialEq, Eq, Structural)]
pub enum TokenKind {
    Null,
    Bool(bool),
    /// The text of the number can be retrieved from the token's location.
    Number,
    /// The text of the string (quotes included) can be retrieved from the token's location.
    String,
    ArrayStart,
    ArrayEnd,
    ObjectStart,
    ObjectEnd,
    Comma,
    Colon,
}

/// A token together with the span of the source it was read from.
#[derive(Debug)]
pub struct Token {
    pub kind: TokenKind,
    pub loc: Loc,
}

/// The mathematical content of a token: its kind and its span.
pub struct TokSpec {
    pub kind: TokenKind,
    pub start: int,
    pub len: int,
}

impl View for Token {
    type V = TokSpec;

    open spec fn view(&self) -> TokSpec {
        TokSpec { kind: self.kind, start: self.loc.start as int, len: self.loc.len as int }
    }
}

impl Token {
    pub fn kind(&self) -> (r: TokenKind)
        ensures
            r == self.kind,
    {
        self.kind
    }

    pub fn into_loc(self) -> (r: Loc)
        ensures
            r == self.loc,
    {
        self.loc
    }

    pub fn as_loc(&self) -> (r: &Loc)
        ensures
            *r == self.loc,
    {
        &self.loc
    }
}

// ---------------------------------------------------------------------------
// The token grammar, as functions of the input bytes `b` and a position.
// ---------------------------------------------------------------------------
pub open spec fn is_ws(c: u8) -> bool {
    c == SPACE || c == TAB || c == NEWLINE || c == CARRIAGE_RETURN
}

pub open spec fn is_digit(c: u8) -> bool {
    DIGIT_0 <= c <= DIGIT_9
}

pub open spec fn is_hex(c: u8) -> bool {
    is_digit(c) || (LOWER_A <= c <= LOWER_F) || (UPPER_A <= c <= UPPER_F)
}

pub open spec fn digit_at(b: Seq<u8>, i: int) -> bool {
    0 <= i < b.len() && is_digit(b[i])
}

pub open spec fn byte_is(b: Seq<u8>, i: int, c: u8) -> bool {
    0 <= i < b.len() && b[i] == c
}

/// The first position at or after `p` that does not hold whitespace.
pub open spec fn skip_ws(b: Seq<u8>, p: int) -> int
    decreases b.len() - p,
{
    if 0 <= p < b.len() && is_ws(b[p]) {
        skip_ws(b, p + 1)
    } else {
        p
    }
}

/// The first position at or after `p` that does not hold a decimal digit.
pub open spec fn digits_end(b: Seq<u8>, p: int) -> int
    decreases b.len() - p,
{
    if digit_at(b, p) {
        digits_end(b, p + 1)
    } else {
        p
    }
}

/// Reading the next non-whitespace byte from position `p`: the byte and the
/// position just after it.
pub open spec fn spec_next_char(b: Seq<u8>, p: int) -> Result<(u8, int), TokErrSpec> {
    let q = skip_ws(b, p);
    if q < b.len() {
        Ok((b[q], q + 1))
    } else {
        Err(tok_err(TokErrKind::Eof, if q > 0 { q - 1 } else { 0 }, 0, "Expected more input."@))
    }
}

/// The bytes at `q` spell the ASCII word `w`.
pub open spec fn word_at(b: Seq<u8>, q: int, w: Seq<char>) -> bool {
    forall|i: int| 0 <= i < w.len() ==> b[q + i] == (w[i] as u8)
}

/// Reading the keyword `w` starting at `q`: the position just after it.
pub open spec fn spec_ident(b: Seq<u8>, q: int, w: Seq<char>) -> Result<int, TokErrSpec> {
    if q + w.len() > b.len() {
        Err(
            tok_err(
                TokErrKind::Eof,
                b.len() - 1,
                0,
                "Encountered end of input while trying to read "@ + w,
            ),
        )
    } else if word_at(b, q, w) {
        Ok(q + w.len())
    } else {
        Err(tok_err(TokErrKind::Token, q, w.len() as int, "Expected "@ + w))
    }
}

/// Checking for a hex digit at `t`: `None` when there is one.
pub open spec fn spec_hex_at(b: Seq<u8>, t: int) -> Option<TokErrSpec> {
    if t >= b.len() {
        Some(tok_err(TokErrKind::Eof, t - 1, 0, "Expected valid unicode escape sequence"@))
    } else if is_hex(b[t]) {
        None
    } else {
        Some(tok_err(TokErrKind::Escape, t, 1, "Expected valid unicode escape sequence"@))
    }
}

/// Reading `n` hex digits from `m`: the position after them.
pub open spec fn spec_hexn(b: Seq<u8>, m: int, n: nat) -> Result<int, TokErrSpec>
    decreases n,
{
    if n == 0 {
        Ok(m)
    } else {
        match spec_hex_at(b, m) {
            Some(e) => Err(e),
            None => spec_hexn(b, m + 1, (n - 1) as nat),
        }
    }
}

pub open spec fn is_simple_escape(c: u8) -> bool {
    c == QUOTE || c == BACKSLASH || c == SLASH || c == LOWER_B || c == LOWER_F || c == LOWER_N || c == LOWER_R
        || c == LOWER_T
}

/// Reading an escape sequence whose backslash sits just before `k`: the
/// position after the sequence.
pub open spec fn spec_escape(b: Seq<u8>, k: int) -> Result<int, TokErrSpec> {
    if k >= b.len() {
        Err(tok_err(TokErrKind::Eof, k - 1, 1, "Expected valid escape sequence"@))
    } else if is_simple_escape(b[k]) {
        Ok(k + 1)
    } else if b[k] == LOWER_U {
        spec_hexn(b, k + 1, 4)
    } else {
        Err(tok_err(TokErrKind::Escape, k - 1, 2, "Expected valid escape sequence"@))
    }
}

/// Reading the rest of a string literal from `i` (the opening quote is
/// already read): the position after the closing quote.
pub open spec fn spec_str(b: Seq<u8>, i: int) -> Result<int, TokErrSpec>
    decreases b.len() - i,
{
    if i >= b.len() {
        Err(
            tok_err(
                TokErrKind::Eof,
                i - 1,
                0,
                "Found end of input while parsing string literal"@,
            ),
        )
    } else if b[i] == QUOTE {
        Ok(i + 1)
    } else if b[i] == BACKSLASH {
        match spec_escape(b, i + 1) {
            Ok(j) => {
                proof {
                    lemma_escape_advances(b, i + 1);
                }
                spec_str(b, j)
            },
            Err(e) => Err(e),
        }
    } else if b[i] < 0x20 {
        Err(
            tok_err(
                TokErrKind::Token,
                i,
                1,
                "String literals cannot include control characters"@,
            ),
        )
    } else {
        spec_str(b, i + 1)
    }
}

/// The integral part of a number literal starting at `s`.
pub open spec fn spec_int_part(b: Seq<u8>, s: int) -> Result<int, TokErrSpec> {
    if s >= b.len() {
        Err(
            tok_err(
                TokErrKind::Eof,
                s - 1,
                0,
                "Found end of input while parsing number literal"@,
            ),
        )
    } else if b[s] == DIGIT_0 {
        if digit_at(b, s + 1) {
            Err(tok_err(TokErrKind::Number, s, 1, "Number literals cannot include leading 0s"@))
        } else {
            Ok(s + 1)
        }
    } else if is_digit(b[s]) {
        Ok(digits_end(b, s))
    } else {
        Err(tok_err(TokErrKind::Number, s, 1, "Unexpected character in number literal"@))
    }
}

/// The optional fractional part of a number literal starting at `i`.
pub open spec fn spec_frac_part(b: Seq<u8>, i: int) -> Result<int, TokErrSpec> {
    if byte_is(b, i, DOT) {
        if !digit_at(b, i + 1) {
            Err(
                tok_err(
                    TokErrKind::Number,
                    i,
                    1,
                    "Number literals must have at least one digit (0-9) following the decimal point"@,
                ),
            )
        } else {
            Ok(digits_end(b, i + 1))
        }
    } else {
        Ok(i)
    }
}

/// The optional exponent of a number literal starting at `i`.
pub open spec fn spec_exp_part(b: Seq<u8>, i: int) -> Result<int, TokErrSpec> {
    if byte_is(b, i, LOWER_E) || byte_is(b, i, UPPER_E) {
        let j = if byte_is(b, i + 1, PLUS) || byte_is(b, i + 1, MINUS) {
            i + 2
        } else {
            i + 1
        };
        if !digit_at(b, j) {
            Err(
                tok_err(
                    TokErrKind::Number,
                    j - 1,
                    1,
                    "Number literals must have at least one digit (0-9) following exponent"@,
                ),
            )
        } else {
            Ok(digits_end(b, j))
        }
    } else {
        Ok(i)
    }
}

/// Reading an unsigned number literal starting at `s`: the position after it.
pub open spec fn spec_number(b: Seq<u8>, s: int) -> Result<int, TokErrSpec> {
    match spec_int_part(b, s) {
        Err(e) => Err(e),
        Ok(i) => match spec_frac_part(b, i) {
            Err(e) => Err(e),
            Ok(j) => spec_exp_part(b, j),
        },
    }
}

/// A token of kind `kind` spanning `[start, end)`, and the position after it.
pub open spec fn tok_at(kind: TokenKind, start: int, end: int) -> (TokSpec, int) {
    (TokSpec { kind, start, len: end - start }, end)
}

pub open spec fn tok_then(kind: TokenKind, start: int, r: Result<int, TokErrSpec>) -> Result<
    (TokSpec, int),
    TokErrSpec,
> {
    match r {
        Ok(end) => Ok(tok_at(kind, start, end)),
        Err(e) => Err(e),
    }
}

/// Reading the next token from position `p`: the token and the position
/// just after it.
pub open spec fn spec_get_token(b: Seq<u8>, p: int) -> Result<(TokSpec, int), TokErrSpec> {
    match spec_next_char(b, p) {
        Err(e) => Err(e),
        Ok((c, p1)) => {
            let q = p1 - 1;
            if c == LOWER_T {
                tok_then(TokenKind::Bool(true), q, spec_ident(b, q, "true"@))
            } else if c == LOWER_F {
                tok_then(TokenKind::Bool(false), q, spec_ident(b, q, "false"@))
            } else if c == LOWER_N {
                tok_then(TokenKind::Null, q, spec_ident(b, q, "null"@))
            } else if c == MINUS {
                tok_then(TokenKind::Number, q, spec_number(b, q + 1))
            } else if is_digit(c) {
                tok_then(TokenKind::Number, q, spec_number(b, q))
            } else if c == QUOTE {
                tok_then(TokenKind::String, q, spec_str(b, q + 1))
            } else if c == OPEN_BRACKET {
                Ok(tok_at(TokenKind::ArrayStart, q, q + 1))
            } else if c == CLOSE_BRACKET {
                Ok(tok_at(TokenKind::ArrayEnd, q, q + 1))
            } else if c == OPEN_BRACE {
                Ok(tok_at(TokenKind::ObjectStart, q, q + 1))
            } else if c == CLOSE_BRACE {
                Ok(tok_at(TokenKind::ObjectEnd, q, q + 1))
            } else if c == COMMA {
                Ok(tok_at(TokenKind::Comma, q, q + 1))
            } else if c == COLON {
                Ok(tok_at(TokenKind::Colon, q, q + 1))
            } else {
                Err(
                    tok_err(
                        TokErrKind::Token,
                        q,
                        1,
                        "Expected one of `null`, `true`, `false`, `:`, `,`, `[`, `]`, `{`, `}`, or string or number literal"@,
                    ),
                )
            }
        },
    }
}

// ---------------------------------------------------------------------------
// Facts about the token grammar.
// ---------------------------------------------------------------------------
pub proof fn lemma_skip_ws(b: Seq<u8>, p: int)
    requires
        0 <= p <= b.len(),
    ensures
        p <= skip_ws(b, p) <= b.len(),
        skip_ws(b, p) < b.len() ==> !is_ws(b[skip_ws(b, p)]),
        forall|k: int| p <= k < skip_ws(b, p) ==> is_ws(#[trigger] b[k]),
    decreases b.len() - p,
{
    if p < b.len() && is_ws(b[p]) {
        lemma_skip_ws(b, p + 1);
    }
}

pub proof fn lemma_digits_end(b: Seq<u8>, p: int)
    requires
        0 <= p <= b.len(),
    ensures
        p <= digits_end(b, p) <= b.len(),
        !digit_at(b, digits_end(b, p)),
        forall|k: int| p <= k < digits_end(b, p) ==> is_digit(#[trigger] b[k]),
    decreases b.len() - p,
{
    if digit_at(b, p) {
        lemma_digits_end(b, p + 1);
    }
}

pub proof fn lemma_hexn(b: Seq<u8>, m: int, n: nat)
    ensures
        spec_hexn(b, m, n) matches Ok(j) ==> j == m + n && (n > 0 ==> m + n <= b.len()),
    decreases n,
{
    if n > 0 {
        lemma_hexn(b, m + 1, (n - 1) as nat);
    }
}

pub proof fn lemma_escape_advances(b: Seq<u8>, k: int)
    ensures
        spec_escape(b, k) matches Ok(j) ==> k < j <= b.len(),
{
    lemma_hexn(b, k + 1, 4);
}

pub proof fn lemma_str_advances(b: Seq<u8>, i: int)
    requires
        0 <= i,
    ensures
        spec_str(b, i) matches Ok(e) ==> i < e <= b.len() && b[e - 1] == QUOTE,
    decreases b.len() - i,
{
    if i < b.len() && b[i] != QUOTE {
        if b[i] == BACKSLASH {
            lemma_escape_advances(b, i + 1);
            if let Ok(j) = spec_escape(b, i + 1) {
                lemma_str_advances(b, j);
            }
        } else if b[i] >= 0x20 {
            lemma_str_advances(b, i + 1);
        }
    }
}

pub proof fn lemma_number_advances(b: Seq<u8>, s: int)
    requires
        0 <= s <= b.len(),
    ensures
        spec_number(b, s) matches Ok(e) ==> s < e <= b.len() && is_digit(b[e - 1]),
{
    if s < b.len() {
        lemma_digits_end(b, s);
        if let Ok(i) = spec_int_part(b, s) {
            if byte_is(b, i, DOT) && digit_at(b, i + 1) {
                lemma_digits_end(b, i + 1);
            }
            if let Ok(j) = spec_frac_part(b, i) {
                assert(s < j <= b.len());
                let j2 = if byte_is(b, j + 1, PLUS) || byte_is(b, j + 1, MINUS) {
                    j + 2
                } else {
                    j + 1
                };
                if digit_at(b, j2) {
                    lemma_digits_end(b, j2);
                }
            }
        }
    }
}

/// A token read at `p` lies after `p`, is not empty, and ends where reading
/// resumes.
pub proof fn lemma_get_token_bounds(b: Seq<u8>, p: int)
    requires
        0 <= p <= b.len(),
    ensures
        spec_get_token(b, p) matches Ok((t, np)) ==> {
            &&& p <= t.start
            &&& 1 <= t.len
            &&& np == t.start + t.len
            &&& np <= b.len()
            &&& (t.kind == TokenKind::String ==> t.len >= 2 && b[t.start] == QUOTE && b[np - 1]
                == QUOTE)
            &&& (t.kind == TokenKind::Number ==> b[t.start] < 128 && b[np - 1] < 128)
        },
{
    reveal_strlit("true");
    reveal_strlit("false");
    reveal_strlit("null");
    lemma_skip_ws(b, p);
    let q = skip_ws(b, p);
    if q < b.len() {
        let c = b[q];
        if c == MINUS {
            lemma_number_advances(b, q + 1);
        } else if is_digit(c) {
            lemma_number_advances(b, q);
        } else if c == QUOTE {
            lemma_str_advances(b, q + 1);
        }
    }
}

// ---------------------------------------------------------------------------
// The tokenizer.
// ---------------------------------------------------------------------------
/// A tokenizer which lazily tokenizes its input. Every token records the
/// span of the input it was read from.
#[derive(Debug)]
pub struct Tokenizer {
    input: Arc<String>,
    cur_pos: usize,
}

impl Tokenizer {
    #[verifier::type_invariant]
    spec fn inv(self) -> bool {
        &&& self.cur_pos <= utf8_bytes(self.input@).len()
        &&& utf8_bytes(self.input@).len() <= usize::MAX
    }

    /// The text being tokenized.
    pub closed spec fn text(&self) -> Seq<char> {
        self.input@
    }

    /// The bytes being tokenized.
    pub open spec fn bytes(&self) -> Seq<u8> {
        utf8_bytes(self.text())
    }

    /// The position of the next unread byte.
    pub closed spec fn pos(&self) -> int {
        self.cur_pos as int
    }

    /// Reveals that the position never passes the end of the input.
    pub fn check_bounds(&self)
        ensures
            0 <= self.pos() <= self.bytes().len(),
            self.bytes().len() <= usize::MAX,
    {
        proof {
            use_type_invariant(self);
        }
    }

    /// Create a tokenizer positioned at the start of `input`.
    pub fn new(input: &str) -> (r: Self)
        ensures
            r.text() == input@,
            r.pos() == 0,
    {
        let text = input.to_string();
        let _n = text.as_str().as_bytes().len();
        Tokenizer { input: Arc::new(text), cur_pos: 0 }
    }

    /// The byte at position `i`, if there is one.
    fn peek(&self, i: usize) -> (r: Option<u8>)
        ensures
            r == (if i < self.bytes().len() {
                Some(self.bytes()[i as int])
            } else {
                None::<u8>
            }),
    {
        let bytes = self.input.as_str().as_bytes();
        if i < bytes.len() {
            Some(bytes[i])
        } else {
            None
        }
    }

    /// The number of bytes of the input.
    fn input_len(&self) -> (r: usize)
        ensures
            r == self.bytes().len(),
    {
        self.input.as_str().as_bytes().len()
    }

    fn digit_at_pos(&self) -> (r: bool)
        ensures
            r == digit_at(self.bytes(), self.pos()),
    {
        match self.peek(self.cur_pos) {
            Some(c) => DIGIT_0 <= c && c <= DIGIT_9,
            None => false,
        }
    }

    /// A location over the input.
    fn loc(&self, start: usize, len: usize) -> (r: Loc)
        ensures
            r.start == start,
            r.len == len,
            r.src@ == self.text(),
    {
        Loc::new((start, len), self.input.clone())
    }

    /// Create a new token of kind `kind` with source information.
    fn new_token(&self, start: usize, len: usize, kind: TokenKind) -> (r: Token)
        ensures
            r.kind == kind,
            r.loc.start == start,
            r.loc.len == len,
            r.loc.src@ == self.text(),
    {
        let loc = self.loc(start, len);
        Token { kind, loc }
    }

    /// Consume one byte.
    fn eat_char(&mut self)
        requires
            old(self).pos() < old(self).bytes().len(),
        ensures
            final(self).pos() == old(self).pos() + 1,
            final(self).text() == old(self).text(),
    {
        proof {
            use_type_invariant(&*self);
        }
        self.cur_pos = self.cur_pos + 1;
    }

    /// Consume the next byte that is not whitespace.
    fn next_char(&mut self) -> (r: Result<u8, TokenizerError>)
        ensures
            final(self).text() == old(self).text(),
            match spec_next_char(old(self).bytes(), old(self).pos()) {
                Ok((c, np)) => r == Ok::<u8, TokenizerError>(c) && final(self).pos() == np,
                Err(e) => r matches Err(re) && re@ == e && re.found().src.src@ == old(self).text(),
            },
    {
        proof {
            use_type_invariant(&*self);
            lemma_skip_ws(self.bytes(), self.pos());
        }
        let ghost b = self.bytes();
        let ghost p0 = self.pos();
        loop
            invariant
                self.text() == old(self).text(),
                b == self.bytes(),
                p0 == old(self).pos(),
                p0 <= self.pos() <= b.len(),
                skip_ws(b, self.pos()) == skip_ws(b, p0),
            decreases b.len() - self.pos(),
        {
            proof {
                use_type_invariant(&*self);
            }
            match self.peek(self.cur_pos) {
                Some(c) => {
                    if c == SPACE || c == TAB || c == NEWLINE || c == CARRIAGE_RETURN {
                        self.eat_char();
                    } else {
                        self.eat_char();
                        return Ok(c);
                    }
                },
                None => {
                    let pos = if self.cur_pos > 0 {
                        self.cur_pos - 1
                    } else {
                        0
                    };
                    let loc = self.loc(pos, 0);
                    return Err(TokenizerError::unexpected_eof(loc, "Expected more input."));
                },
            }
        }
    }

    /// Consume the keyword `ident`, whose first byte was just consumed.
    fn consume_ident(&mut self, ident: &str) -> (r: Result<(), TokenizerError>)
        requires
            old(self).pos() >= 1,
            vstd::string::is_ascii(ident),
        ensures
            final(self).text() == old(self).text(),
            match spec_ident(old(self).bytes(), old(self).pos() - 1, ident@) {
                Ok(np) => r is Ok && final(self).pos() == np,
                Err(e) => r matches Err(re) && re@ == e && re.found().src.src@ == old(self).text(),
            },
    {
        proof {
            use_type_invariant(&*self);
            vstd::utf8::is_ascii_chars_encode_utf8(ident@);
        }
        let ghost b = self.bytes();
        assert(b.len() <= usize::MAX);
        self.cur_pos = self.cur_pos - 1;
        let total = self.input_len();
        let word = ident.as_bytes();
        let n = word.len();
        if n > total - self.cur_pos {
            let loc = self.loc(total - 1, 0);
            let mut msg = "Encountered end of input while trying to read ".to_string();
            msg.append(ident);
            return Err(TokenizerError::unexpected_eof(loc, msg.as_str()));
        }
        let mut i: usize = 0;
        while i < n
            invariant
                self.text() == old(self).text(),
                b == self.bytes(),
                self.pos() == old(self).pos() - 1,
                self.pos() + n <= b.len(),
                n == ident@.len(),
                word@.len() == n,
                b.len() <= usize::MAX,
                word@ == utf8_bytes(ident@),
                forall|k: int| 0 <= k < ident@.len() ==> ident@[k] as u8 == #[trigger] word@[k],
                0 <= i <= n,
                forall|k: int| 0 <= k < i ==> b[self.pos() + k] == (ident@[k] as u8),
            decreases n - i,
        {
            let c = self.peek(self.cur_pos + i);
            if c != Some(word[i]) {
                let loc = self.loc(self.cur_pos, n);
                let mut msg = "Expected ".to_string();
                msg.append(ident);
                return Err(TokenizerError::unexpected_token(loc, msg.as_str()));
            }
            i = i + 1;
        }
        self.cur_pos = self.cur_pos + n;
        Ok(())
    }

    /// Consume one hex digit of a unicode escape sequence.
    fn eat_hex_digit(&mut self) -> (r: Result<(), TokenizerError>)
        requires
            old(self).pos() >= 1,
        ensures
            final(self).text() == old(self).text(),
            match spec_hex_at(old(self).bytes(), old(self).pos()) {
                None => r is Ok && final(self).pos() == old(self).pos() + 1,
                Some(e) => r matches Err(re) && re@ == e && re.found().src.src@ == old(self).text(),
            },
    {
        match self.peek(self.cur_pos) {
            Some(c) => {
                if (DIGIT_0 <= c && c <= DIGIT_9) || (LOWER_A <= c && c <= LOWER_F) || (UPPER_A <= c
                    && c <= UPPER_F) {
                    self.eat_char();
                    Ok(())
                } else {
                    let loc = self.loc(self.cur_pos, 1);
                    Err(
                        TokenizerError::unknown_escape_sequence(
                            loc,
                            "Expected valid unicode escape sequence",
                        ),
                    )
                }
            },
            None => {
                let loc = self.loc(self.cur_pos - 1, 0);
                Err(TokenizerError::unexpected_eof(loc, "Expected valid unicode escape sequence"))
            },
        }
    }

    /// Consume an escape sequence whose backslash was just consumed.
    fn consume_escape_sequence(&mut self) -> (r: Result<(), TokenizerError>)
        requires
            old(self).pos() >= 1,
        ensures
            final(self).text() == old(self).text(),
            match spec_escape(old(self).bytes(), old(self).pos()) {
                Ok(np) => r is Ok && final(self).pos() == np,
                Err(e) => r matches Err(re) && re@ == e && re.found().src.src@ == old(self).text(),
            },
    {
        let ghost b = self.bytes();
        match self.peek(self.cur_pos) {
            Some(c) => {
                if c == QUOTE || c == BACKSLASH || c == SLASH || c == LOWER_B || c == LOWER_F || c
                    == LOWER_N || c == LOWER_R || c == LOWER_T {
                    self.eat_char();
                    Ok(())
                } else if c == LOWER_U {
                    self.eat_char();
                    let ghost m = self.pos();
                    let mut i: usize = 0;
                    while i < 4
                        invariant
                            self.text() == old(self).text(),
                            b == self.bytes(),
                            i <= 4,
                            self.pos() == m + i,
                            m >= 1,
                            spec_hexn(b, m, 4) == spec_hexn(b, self.pos(), (4 - i) as nat),
                            m - 1 == old(self).pos(),
                            b == old(self).bytes(),
                            b[m - 1] == LOWER_U,
                            m - 1 < b.len(),
                        decreases 4 - i,
                    {
                        let ghost here = self.pos();
                        let step = self.eat_hex_digit();
                        match step {
                            Ok(()) => {},
                            Err(e) => {
                                assert(spec_hexn(b, here, (4 - i) as nat) == Err::<int, TokErrSpec>(
                                    e@,
                                ));
                                assert(spec_escape(b, m - 1) == Err::<int, TokErrSpec>(e@));
                                return Err(e);
                            },
                        }
                        i = i + 1;
                    }
                    Ok(())
                } else {
                    let loc = self.loc(self.cur_pos - 1, 2);
                    Err(TokenizerError::unknown_escape_sequence(loc, "Expected valid escape sequence"))
                }
            },
            None => {
                let loc = self.loc(self.cur_pos - 1, 1);
                Err(TokenizerError::unexpected_eof(loc, "Expected valid escape sequence"))
            },
        }
    }

    /// Consume the rest of a string literal whose opening quote was just
    /// consumed.
    fn consume_str_literal(&mut self) -> (r: Result<(), TokenizerError>)
        requires
            old(self).pos() >= 1,
        ensures
            final(self).text() == old(self).text(),
            match spec_str(old(self).bytes(), old(self).pos()) {
                Ok(np) => r is Ok && final(self).pos() == np,
                Err(e) => r matches Err(re) && re@ == e && re.found().src.src@ == old(self).text(),
            },
    {
        proof {
            use_type_invariant(&*self);
        }
        let ghost b = self.bytes();
        let ghost p0 = self.pos();
        loop
            invariant
                self.text() == old(self).text(),
                b == self.bytes(),
                p0 == old(self).pos(),
                1 <= self.pos() <= b.len(),
                spec_str(b, self.pos()) == spec_str(b, p0),
            decreases b.len() - self.pos(),
        {
            proof {
                use_type_invariant(&*self);
            }
            match self.peek(self.cur_pos) {
                Some(c) => {
                    if c == QUOTE {
                        self.eat_char();
                        return Ok(());
                    } else if c == BACKSLASH {
                        self.eat_char();
                        proof {
                            lemma_escape_advances(b, self.pos());
                        }
                        self.consume_escape_sequence()?;
                    } else if c < 0x20 {
                        let loc = self.loc(self.cur_pos, 1);
                        return Err(
                            TokenizerError::unexpected_token(
                                loc,
                                "String literals cannot include control characters",
                            ),
                        );
                    } else {
                        self.eat_char();
                    }
                },
                None => {
                    let loc = self.loc(self.cur_pos - 1, 0);
                    return Err(
                        TokenizerError::unexpected_eof(
                            loc,
                            "Found end of input while parsing string literal",
                        ),
                    );
                },
            }
        }
    }

    /// Consume decimal digits.
    fn eat_digits(&mut self)
        ensures
            final(self).text() == old(self).text(),
            final(self).pos() == digits_end(old(self).bytes(), old(self).pos()),
    {
        proof {
            use_type_invariant(&*self);
        }
        let ghost b = self.bytes();
        let ghost p0 = self.pos();
        while self.digit_at_pos()
            invariant
                self.text() == old(self).text(),
                b == self.bytes(),
                p0 == old(self).pos(),
                0 <= self.pos() <= b.len(),
                digits_end(b, self.pos()) == digits_end(b, p0),
            decreases b.len() - self.pos(),
        {
            self.eat_char();
        }
    }

    /// Consume an unsigned number literal.
    fn consume_number_literal(&mut self) -> (r: Result<(), TokenizerError>)
        requires
            old(self).pos() >= 1 || old(self).pos() < old(self).bytes().len(),
        ensures
            final(self).text() == old(self).text(),
            match spec_number(old(self).bytes(), old(self).pos()) {
                Ok(np) => r is Ok && final(self).pos() == np,
                Err(e) => r matches Err(re) && re@ == e && re.found().src.src@ == old(self).text(),
            },
    {
        proof {
            use_type_invariant(&*self);
        }
        let ghost b = self.bytes();
        let ghost s = self.pos();
        // Integral part
        match self.peek(self.cur_pos) {
            Some(c) => {
                if c == DIGIT_0 {
                    self.eat_char();
                    if self.digit_at_pos() {
                        let loc = self.loc(self.cur_pos - 1, 1);
                        return Err(
                            TokenizerError::invalid_number(
                                loc,
                                "Number literals cannot include leading 0s",
                            ),
                        );
                    }
                } else if DIGIT_0 <= c && c <= DIGIT_9 {
                    self.eat_digits();
                } else {
                    let loc = self.loc(self.cur_pos, 1);
                    return Err(
                        TokenizerError::invalid_number(
                            loc,
                            "Unexpected character in number literal",
                        ),
                    );
                }
            },
            None => {
                let loc = self.loc(self.cur_pos - 1, 0);
                return Err(
                    TokenizerError::unexpected_eof(
                        loc,
                        "Found end of input while parsing number literal",
                    ),
                );
            },
        }
        assert(spec_int_part(b, s) == Ok::<int, TokErrSpec>(self.pos()));
        proof {
            use_type_invariant(&*self);
        }
        // Fractional part
        if self.peek(self.cur_pos) == Some(DOT) {
            self.eat_char();
            if !self.digit_at_pos() {
                let loc = self.loc(self.cur_pos - 1, 1);
                return Err(
                    TokenizerError::invalid_number(
                        loc,
                        "Number literals must have at least one digit (0-9) following the decimal point",
                    ),
                );
            }
            self.eat_digits();
        }
        let ghost i = self.pos();
        proof {
            use_type_invariant(&*self);
        }
        // Exponent part
        let e = self.peek(self.cur_pos);
        if e == Some(LOWER_E) || e == Some(UPPER_E) {
            self.eat_char();
            let sign = self.peek(self.cur_pos);
            if sign == Some(PLUS) || sign == Some(MINUS) {
                self.eat_char();
            }
            if !self.digit_at_pos() {
                let loc = self.loc(self.cur_pos - 1, 1);
                return Err(
                    TokenizerError::invalid_number(
                        loc,
                        "Number literals must have at least one digit (0-9) following exponent",
                    ),
                );
            }
            self.eat_digits();
        }
        Ok(())
    }

    /// Read the next token from the input.
    pub fn get_token(&mut self) -> (r: Result<Token, TokenizerError>)
        ensures
            final(self).text() == old(self).text(),
            match spec_get_token(old(self).bytes(), old(self).pos()) {
                Ok((t, np)) => r matches Ok(rt) && rt@ == t && rt.loc.src@ == old(self).text()
                    && final(self).pos() == np,
                Err(e) => r matches Err(re) && re@ == e && re.found().src.src@ == old(self).text(),
            },
    {
        proof {
            use_type_invariant(&*self);
            lemma_skip_ws(self.bytes(), self.pos());
        }
        let ghost b = self.bytes();
        let ghost p0 = self.pos();
        let next = self.next_char()?;
        proof {
            use_type_invariant(&*self);
            reveal_strlit("true");
            reveal_strlit("false");
            reveal_strlit("null");
        }
        let start = self.cur_pos - 1;
        if next == LOWER_T {
            self.consume_ident("true")?;
            Ok(self.new_token(start, 4, TokenKind::Bool(true)))
        } else if next == LOWER_F {
            self.consume_ident("false")?;
            Ok(self.new_token(start, 5, TokenKind::Bool(false)))
        } else if next == LOWER_N {
            self.consume_ident("null")?;
            Ok(self.new_token(start, 4, TokenKind::Null))
        } else if next == MINUS {
            self.consume_number_literal()?;
            proof {
                lemma_number_advances(b, start + 1);
            }
            Ok(self.new_token(start, self.cur_pos - start, TokenKind::Number))
        } else if DIGIT_0 <= next && next <= DIGIT_9 {
            self.cur_pos = self.cur_pos - 1;
            self.consume_number_literal()?;
            proof {
                lemma_number_advances(b, start as int);
            }
            Ok(self.new_token(start, self.cur_pos - start, TokenKind::Number))
        } else if next == QUOTE {
            self.consume_str_literal()?;
            proof {
                lemma_str_advances(b, start + 1);
            }
            Ok(self.new_token(start, self.cur_pos - start, TokenKind::String))
        } else if next == OPEN_BRACKET {
            Ok(self.new_token(start, 1, TokenKind::ArrayStart))
        } else if next == CLOSE_BRACKET {
            Ok(self.new_token(start, 1, TokenKind::ArrayEnd))
        } else if next == OPEN_BRACE {
            Ok(self.new_token(start, 1, TokenKind::ObjectStart))
        } else if next == CLOSE_BRACE {
            Ok(self.new_token(start, 1, TokenKind::ObjectEnd))
        } else if next == COMMA {
            Ok(self.new_token(start, 1, TokenKind::Comma))
        } else if next == COLON {
            Ok(self.new_token(start, 1, TokenKind::Colon))
        } else {
            let loc = self.loc(self.cur_pos - 1, 1);
            Err(
                TokenizerError::unexpected_token(
                    loc,
                    "Expected one of `null`, `true`, `false`, `:`, `,`, `[`, `]`, `{`, `}`, or string or number literal",
                ),
            )
        }
    }
}

// ---------------------------------------------------------------------------
// The grammar of number literals.
// ---------------------------------------------------------------------------
/// Every byte is a decimal digit.
pub open spec fn all_digits(t: Seq<u8>) -> bool {
    forall|i: int| 0 <= i < t.len() ==> is_digit(#[trigger] t[i])
}

/// The integral part of a number: `0`, or a digit other than `0` followed
/// by digits.
pub open spec fn is_int_part(t: Seq<u8>) -> bool {
    t == seq![DIGIT_0] || (t.len() >= 1 && t[0] != DIGIT_0 && all_digits(t))
}

/// The fractional part of a number: nothing, or `.` followed by at least
/// one digit.
pub open spec fn is_frac_part(t: Seq<u8>) -> bool {
    t.len() == 0 || (t.len() >= 2 && t[0] == DOT && all_digits(t.drop_first()))
}

/// The exponent of a number: nothing, or `e` or `E`, an optional sign,
/// and at least one digit.
pub open spec fn is_exp_part(t: Seq<u8>) -> bool {
    t.len() == 0 || (t.len() >= 2 && (t[0] == LOWER_E || t[0] == UPPER_E) && {
        let u = t.drop_first();
        let v = if u[0] == PLUS || u[0] == MINUS {
            u.drop_first()
        } else {
            u
        };
        v.len() >= 1 && all_digits(v)
    })
}

/// An unsigned JSON number literal: an integral part, an optional
/// fractional part and an optional exponent.
pub open spec fn is_unsigned_number(t: Seq<u8>) -> bool {
    exists|i: int, j: int|
        0 < i <= j <= t.len() && is_int_part(#[trigger] t.subrange(0, i)) && is_frac_part(
            #[trigger] t.subrange(i, j),
        ) && is_exp_part(t.subrange(j, t.len() as int))
}

/// The bytes `digits_end` passes over are digits.
proof fn lemma_digits_run(b: Seq<u8>, p: int)
    requires
        0 <= p <= b.len(),
    ensures
        p <= digits_end(b, p) <= b.len(),
        all_digits(b.subrange(p, digits_end(b, p))),
        !digit_at(b, digits_end(b, p)),
{
    lemma_digits_end(b, p);
    let e = digits_end(b, p);
    assert forall|i: int| 0 <= i < e - p implies is_digit(#[trigger] b.subrange(p, e)[i]) by {
        assert(b.subrange(p, e)[i] == b[p + i]);
    }
}

/// What the number reader accepts is a number literal, and the byte after
/// it, if any, is not a digit: a number token is an unsigned JSON number
/// that cannot be extended by a digit.
pub proof fn lemma_number_grammar(b: Seq<u8>, s: int)
    requires
        0 <= s <= b.len(),
    ensures
        spec_number(b, s) matches Ok(e) ==> s < e <= b.len() && is_unsigned_number(b.subrange(s, e))
            && !digit_at(b, e),
{
    if let Ok(e) = spec_number(b, s) {
        let i = spec_int_part(b, s)->Ok_0;
        let j = spec_frac_part(b, i)->Ok_0;
        let t = b.subrange(s, e);
        // The integral part.
        if b[s] == DIGIT_0 {
            assert(i == s + 1);
        } else {
            lemma_digits_run(b, s);
        }
        assert(s < i <= b.len());
        assert(is_int_part(b.subrange(s, i))) by {
            if b[s] == DIGIT_0 {
                assert(b.subrange(s, i) =~= seq![DIGIT_0]);
            } else {
                assert(b.subrange(s, i)[0] == b[s]);
            }
        }
        // The fractional part.
        if byte_is(b, i, DOT) {
            lemma_digits_run(b, i + 1);
            assert(b.subrange(i, j).drop_first() =~= b.subrange(i + 1, j));
            assert(b.subrange(i, j)[0] == b[i]);
        } else {
            assert(j == i);
        }
        assert(i <= j <= b.len());
        assert(is_frac_part(b.subrange(i, j)));
        // The exponent.
        if byte_is(b, j, LOWER_E) || byte_is(b, j, UPPER_E) {
            let k = if byte_is(b, j + 1, PLUS) || byte_is(b, j + 1, MINUS) {
                j + 2
            } else {
                j + 1
            };
            lemma_digits_run(b, k);
            let x = b.subrange(j, e);
            assert(x[0] == b[j]);
            assert(x.drop_first() =~= b.subrange(j + 1, e));
            if k == j + 2 {
                assert(x.drop_first()[0] == b[j + 1]);
                assert(x.drop_first().drop_first() =~= b.subrange(k, e));
            } else {
                assert(x.drop_first()[0] == b[j + 1]);
            }
        } else {
            assert(e == j);
            lemma_digits_run(b, j);
        }
        assert(j <= e <= b.len());
        assert(t.subrange(0, i - s) =~= b.subrange(s, i));
        assert(t.subrange(i - s, j - s) =~= b.subrange(i, j));
        assert(t.subrange(j - s, t.len() as int) =~= b.subrange(j, e));
        assert(is_exp_part(b.subrange(j, e)));
        assert(is_int_part(t.subrange(0, i - s)) && is_frac_part(t.subrange(i - s, j - s)));
        if !(byte_is(b, j, LOWER_E) || byte_is(b, j, UPPER_E)) {
            if byte_is(b, i, DOT) {
                lemma_digits_run(b, i + 1);
            } else if b[s] != DIGIT_0 {
                lemma_digits_run(b, s);
            }
        }
    }
}

/// A number token is an unsigned JSON number literal, after a `-` or not,
/// that cannot be extended by a digit.
pub proof fn lemma_number_token(b: Seq<u8>, p: int)
    requires
        0 <= p <= b.len(),
    ensures
        match spec_get_token(b, p) {
            Ok((tok, _)) => tok.kind == TokenKind::Number ==> {
                let end = tok.start + tok.len;
                &&& 0 <= tok.start < end <= b.len()
                &&& !digit_at(b, end)
                &&& if b[tok.start] == MINUS {
                    is_unsigned_number(b.subrange(tok.start + 1, end))
                } else {
                    is_unsigned_number(b.subrange(tok.start, end))
                }
            },
            Err(_) => true,
        },
{
    lemma_skip_ws(b, p);
    let q = skip_ws(b, p);
    if q < b.len() {
        if b[q] == MINUS {
            lemma_number_grammar(b, q + 1);
        } else if is_digit(b[q]) {
            lemma_number_grammar(b, q);
        }
    }
}

} // verus!
