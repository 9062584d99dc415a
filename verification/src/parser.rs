//! A recursive-descent JSON parser over the located tokenizer.
//!
//! The parser's behaviour is specified by [`spec_parse_value`], a function of
//! the input bytes and the position at which parsing starts. Objects keep
//! their entries in source order and reject duplicate keys.

use crate::json::{
    entries_view, lemma_entries_view, lemma_values_view, lemma_entries_view_push, lemma_lookup_entry,
    lemma_values_view_push, lookup_entry, values_view, JsonKey, JsonKind, JsonSpec,
    LocatedString, LocatedValue, key_has_content,
};
use crate::loc::{utf8_bytes, Loc};
use crate::tokenizer::{
    lemma_get_token_bounds, spec_get_token, LocationFound, TokErrSpec, TokSpec, Token, TokenKind,
    Tokenizer, TokenizerError,
};
use vstd::prelude::*;

verus! {

/// A span of the source: an offset and a length.
#[derive(Clone, Copy, Debug, PartialEq, Eq, Structural)]
pub struct Span {
    pub offset: usize,
    pub len: usize,
}

impl Span {
    /// The span covered by `loc`.
    pub fn from_loc(loc: &Loc) -> (r: Span)
        ensures
            r.offset == loc.start,
            r.len == loc.len,
    {
        Span { offset: loc.start, len: loc.len }
    }
}

/// The information carried by a duplicate-key error.
#[derive(Debug)]
pub struct DuplicateFound {
    pub src: Loc,
    pub first: Span,
    pub second: Span,
    pub msg: String,
    pub code: String,
}

/// The ways parsing can fail.
#[derive(Debug)]
pub enum ParseError {
    TokenizerError(TokenizerError),
    UnexpectedToken(LocationFound),
    DuplicateKey(DuplicateFound),
}

/// The mathematical content of a parse error.
pub enum ParseErrSpec {
    Tokenize(TokErrSpec),
    Unexpected { start: int, len: int, msg: Seq<char> },
    Duplicate { first_start: int, first_len: int, second_start: int, second_len: int },
}

impl View for ParseError {
    type V = ParseErrSpec;

    open spec fn view(&self) -> ParseErrSpec {
        match self {
            ParseError::TokenizerError(e) => ParseErrSpec::Tokenize(e@),
            ParseError::UnexpectedToken(f) => ParseErrSpec::Unexpected {
                start: f.src.start as int,
                len: f.src.len as int,
                msg: f.msg@,
            },
            ParseError::DuplicateKey(d) => ParseErrSpec::Duplicate {
                first_start: d.first.offset as int,
                first_len: d.first.len as int,
                second_start: d.second.offset as int,
                second_len: d.second.len as int,
            },
        }
    }
}

/// The message of a parse error.
pub open spec fn parse_err_message(e: ParseErrSpec) -> Seq<char> {
    match e {
        ParseErrSpec::Tokenize(t) => crate::tokenizer::tok_err_message(t.kind),
        ParseErrSpec::Unexpected { .. } => "Encountered unexpected token while parsing."@,
        ParseErrSpec::Duplicate { .. } => "Duplicate key found"@,
    }
}

impl ParseError {
    /// The message of the error.
    pub fn to_string(&self) -> (r: String)
        ensures
            r@ == parse_err_message(self@),
    {
        match self {
            ParseError::TokenizerError(t) => t.to_string(),
            ParseError::UnexpectedToken(_) => "Encountered unexpected token while parsing.".to_string(),
            ParseError::DuplicateKey(_) => "Duplicate key found".to_string(),
        }
    }
}

impl ParseError {
    /// An unexpected-token error at `loc` with help text `msg`.
    pub fn unexpected_token(loc: Loc, msg: &str) -> (r: Self)
        ensures
            r is UnexpectedToken,
            r->UnexpectedToken_0.src == loc,
            r->UnexpectedToken_0.msg@ == msg@,
            r->UnexpectedToken_0.label@ == "Found"@,
            r->UnexpectedToken_0.code@ == "parse::unexpected_token"@,
    {
        ParseError::UnexpectedToken(
            LocationFound {
                src: loc,
                label: "Found".to_string(),
                msg: msg.to_string(),
                code: "parse::unexpected_token".to_string(),
            },
        )
    }

    /// A duplicate-key error: the key at `second` repeats the key at `first`.
    pub fn duplicate_key(first: Span, second: Loc) -> (r: Self)
        ensures
            r is DuplicateKey,
            r->DuplicateKey_0.src == second,
            r->DuplicateKey_0.first == first,
            r->DuplicateKey_0.second == (Span { offset: second.start, len: second.len }),
            r->DuplicateKey_0.msg@ == "All keys should be unique."@,
            r->DuplicateKey_0.code@ == "parse::duplicate_key"@,
    {
        let second_span = Span::from_loc(&second);
        ParseError::DuplicateKey(
            DuplicateFound {
                src: second,
                first,
                second: second_span,
                msg: "All keys should be unique.".to_string(),
                code: "parse::duplicate_key".to_string(),
            },
        )
    }
}

// ---------------------------------------------------------------------------
// The JSON grammar over the token grammar.
// ---------------------------------------------------------------------------
pub open spec fn unexpected(t: TokSpec, msg: Seq<char>) -> ParseErrSpec {
    ParseErrSpec::Unexpected { start: t.start, len: t.len, msg }
}

/// The value of a token that is a complete value on its own.
pub open spec fn leaf_of(b: Seq<u8>, t: TokSpec) -> Option<JsonSpec> {
    let end = t.start + t.len;
    match t.kind {
        TokenKind::Null => Some(JsonSpec { kind: JsonKind::Null, start: t.start, len: t.len }),
        TokenKind::Bool(x) => Some(JsonSpec { kind: JsonKind::Bool(x), start: t.start, len: t.len }),
        TokenKind::Number => Some(
            JsonSpec { kind: JsonKind::Number(b.subrange(t.start, end)), start: t.start, len: t.len },
        ),
        TokenKind::String => Some(
            JsonSpec {
                kind: JsonKind::String(b.subrange(t.start + 1, end - 1)),
                start: t.start,
                len: t.len,
            },
        ),
        _ => None,
    }
}

pub open spec fn array_spec(items: Seq<JsonSpec>, start: int, end: int) -> JsonSpec {
    JsonSpec { kind: JsonKind::Array(items), start, len: end - start }
}

pub open spec fn object_spec(entries: Seq<(JsonKey, JsonSpec)>, start: int, end: int) -> JsonSpec {
    JsonSpec { kind: JsonKind::Object(entries), start, len: end - start }
}

pub open spec fn key_of(b: Seq<u8>, t: TokSpec) -> JsonKey {
    JsonKey { start: t.start, len: t.len, content: b.subrange(t.start + 1, t.start + t.len - 1) }
}

/// The keys of the entries are pairwise different.
pub open spec fn distinct_keys(es: Seq<(JsonKey, JsonSpec)>) -> bool {
    forall|i: int, j: int| 0 <= i < j < es.len() ==> #[trigger] es[i].0.content != #[trigger] es[j].0.content
}

/// No object in `v`, at any depth, holds a key twice.
pub open spec fn keys_unique(v: JsonSpec) -> bool
    decreases v, 1int,
{
    match v.kind {
        JsonKind::Array(items) => all_keys_unique(items),
        JsonKind::Object(es) => distinct_keys(es) && entry_keys_unique(es),
        _ => true,
    }
}

/// No object in the values holds a key twice.
pub open spec fn all_keys_unique(s: Seq<JsonSpec>) -> bool
    decreases s, 0int,
{
    if s.len() == 0 {
        true
    } else {
        keys_unique(s[0]) && all_keys_unique(s.drop_first())
    }
}

/// No object in the values of the entries holds a key twice.
pub open spec fn entry_keys_unique(es: Seq<(JsonKey, JsonSpec)>) -> bool
    decreases es, 0int,
{
    if es.len() == 0 {
        true
    } else {
        keys_unique(es[0].1) && entry_keys_unique(es.drop_first())
    }
}

proof fn lemma_all_keys_unique(s: Seq<JsonSpec>)
    ensures
        all_keys_unique(s) <==> forall|i: int| 0 <= i < s.len() ==> #[trigger] keys_unique(s[i]),
    decreases s.len(),
{
    if s.len() > 0 {
        let rest = s.drop_first();
        lemma_all_keys_unique(rest);
        if all_keys_unique(s) {
            assert forall|i: int| 0 <= i < s.len() implies #[trigger] keys_unique(s[i]) by {
                if i > 0 {
                    assert(s[i] == rest[i - 1]);
                }
            }
        }
        if forall|i: int| 0 <= i < s.len() ==> #[trigger] keys_unique(s[i]) {
            assert forall|i: int| 0 <= i < rest.len() implies #[trigger] keys_unique(rest[i]) by {
                assert(rest[i] == s[i + 1]);
            }
            assert(keys_unique(s[0]));
        }
    }
}

proof fn lemma_entry_keys_unique(es: Seq<(JsonKey, JsonSpec)>)
    ensures
        entry_keys_unique(es) <==> forall|i: int| 0 <= i < es.len() ==> #[trigger] keys_unique(es[i].1),
    decreases es.len(),
{
    if es.len() > 0 {
        let rest = es.drop_first();
        lemma_entry_keys_unique(rest);
        if entry_keys_unique(es) {
            assert forall|i: int| 0 <= i < es.len() implies #[trigger] keys_unique(es[i].1) by {
                if i > 0 {
                    assert(es[i] == rest[i - 1]);
                }
            }
        }
        if forall|i: int| 0 <= i < es.len() ==> #[trigger] keys_unique(es[i].1) {
            assert forall|i: int| 0 <= i < rest.len() implies #[trigger] keys_unique(rest[i].1) by {
                assert(rest[i] == es[i + 1]);
            }
            assert(keys_unique(es[0].1));
        }
    }
}

/// A value that the parser reads holds no key twice in any of its objects.
pub proof fn lemma_parsed_objects_have_distinct_keys(b: Seq<u8>, p: int)
    requires
        0 <= p <= b.len(),
    ensures
        spec_parse_value(b, p) matches Ok((v, q)) ==> keys_unique(v) && p < q <= b.len(),
    decreases b.len() - p, 2int,
{
    lemma_get_token_bounds(b, p);
    match spec_get_token(b, p) {
        Err(_) => {},
        Ok((t, p1)) => {
            if leaf_of(b, t) is None {
                if t.kind == TokenKind::ArrayStart {
                    lemma_parsed_array_keys_unique(b, p1, t.start, seq![], true);
                } else if t.kind == TokenKind::ObjectStart {
                    lemma_parsed_object_keys_unique(b, p1, t.start, seq![], true);
                }
            }
        },
    }
}

proof fn lemma_parsed_array_keys_unique(
    b: Seq<u8>,
    p: int,
    start: int,
    items: Seq<JsonSpec>,
    maybe_empty: bool,
)
    requires
        0 <= p <= b.len(),
        forall|i: int| 0 <= i < items.len() ==> #[trigger] keys_unique(items[i]),
    ensures
        spec_parse_array(b, p, start, items, maybe_empty) matches Ok((v, q)) ==> keys_unique(v) && p
            < q <= b.len(),
    decreases b.len() - p, 0int,
{
    lemma_get_token_bounds(b, p);
    match spec_get_token(b, p) {
        Err(_) => {},
        Ok((t, p1)) => {
            if t.kind == TokenKind::ArrayEnd && maybe_empty {
                lemma_all_keys_unique(items);
                assert(keys_unique(array_spec(items, start, t.start + t.len)));
            } else {
                let item = match leaf_of(b, t) {
                    Some(v) => Ok((v, p1)),
                    None => if t.kind == TokenKind::ArrayStart {
                        lemma_parsed_array_keys_unique(b, p1, t.start, seq![], true);
                        spec_parse_array(b, p1, t.start, seq![], true)
                    } else if t.kind == TokenKind::ObjectStart {
                        lemma_parsed_object_keys_unique(b, p1, t.start, seq![], true);
                        spec_parse_object(b, p1, t.start, seq![], true)
                    } else {
                        Err(unexpected(t, seq![]))
                    },
                };
                match item {
                    Err(_) => {},
                    Ok((v, p2)) => {
                        assert(keys_unique(v));
                        let items2 = items.push(v);
                        assert forall|i: int| 0 <= i < items2.len() implies #[trigger] keys_unique(
                            items2[i],
                        ) by {
                            if i < items.len() {
                                assert(items2[i] == items[i]);
                            }
                        }
                        if 0 <= p2 <= b.len() {
                            lemma_get_token_bounds(b, p2);
                            match spec_get_token(b, p2) {
                                Err(_) => {},
                                Ok((t2, p3)) => {
                                    if t2.kind == TokenKind::Comma && p < p3 <= b.len() {
                                        lemma_parsed_array_keys_unique(b, p3, start, items2, false);
                                    } else if t2.kind == TokenKind::ArrayEnd {
                                        lemma_all_keys_unique(items2);
                                        assert(keys_unique(array_spec(items2, start, t2.start + t2.len)));
                                    }
                                },
                            }
                        }
                    },
                }
            }
        },
    }
}

proof fn lemma_parsed_object_keys_unique(
    b: Seq<u8>,
    p: int,
    start: int,
    entries: Seq<(JsonKey, JsonSpec)>,
    maybe_empty: bool,
)
    requires
        0 <= p <= b.len(),
        distinct_keys(entries),
        forall|i: int| 0 <= i < entries.len() ==> #[trigger] keys_unique(entries[i].1),
    ensures
        spec_parse_object(b, p, start, entries, maybe_empty) matches Ok((v, q)) ==> keys_unique(v)
            && p < q <= b.len(),
    decreases b.len() - p, 1int,
{
    lemma_get_token_bounds(b, p);
    match spec_get_token(b, p) {
        Err(_) => {},
        Ok((t, p1)) => {
            if t.kind == TokenKind::String {
                let key = key_of(b, t);
                lemma_get_token_bounds(b, p1);
                match spec_get_token(b, p1) {
                    Err(_) => {},
                    Ok((t2, p2)) => {
                        if t2.kind == TokenKind::Colon {
                            lemma_parsed_objects_have_distinct_keys(b, p2);
                            match spec_parse_value(b, p2) {
                                Err(_) => {},
                                Ok((v, p3)) => {
                                    lemma_lookup_entry(entries, key.content);
                                    if lookup_entry(entries, key.content) is None {
                                        let entries2 = entries.push((key, v));
                                        assert(distinct_keys(entries2)) by {
                                            assert forall|i: int, j: int|
                                                0 <= i < j < entries2.len() implies #[trigger] entries2[i].0.content
                                                != #[trigger] entries2[j].0.content by {
                                                if j == entries.len() {
                                                    assert(entries2[i] == entries[i]);
                                                } else {
                                                    assert(entries2[i] == entries[i]);
                                                    assert(entries2[j] == entries[j]);
                                                }
                                            }
                                        }
                                        assert forall|i: int| 0 <= i < entries2.len() implies #[trigger] keys_unique(
                                            entries2[i].1,
                                        ) by {
                                            if i < entries.len() {
                                                assert(entries2[i] == entries[i]);
                                            }
                                        }
                                        if 0 <= p3 <= b.len() {
                                            lemma_get_token_bounds(b, p3);
                                            match spec_get_token(b, p3) {
                                                Err(_) => {},
                                                Ok((t3, p4)) => {
                                                    if t3.kind == TokenKind::ObjectEnd {
                                                        lemma_entry_keys_unique(entries2);
                                                        assert(keys_unique(
                                                            object_spec(entries2, start, t3.start + t3.len),
                                                        ));
                                                    } else if t3.kind == TokenKind::Comma && p < p4
                                                        <= b.len() {
                                                        lemma_parsed_object_keys_unique(
                                                            b,
                                                            p4,
                                                            start,
                                                            entries2,
                                                            false,
                                                        );
                                                    }
                                                },
                                            }
                                        }
                                    }
                                },
                            }
                        }
                    },
                }
            } else if t.kind == TokenKind::ObjectEnd && maybe_empty {
                lemma_entry_keys_unique(entries);
                assert(keys_unique(object_spec(entries, start, t.start + t.len)));
            }
        },
    }
}

/// Parsing one value starting at `p`: the value and the position after it.
pub open spec fn spec_parse_value(b: Seq<u8>, p: int) -> Result<(JsonSpec, int), ParseErrSpec>
    decreases b.len() - p, 2int,
    when 0 <= p <= b.len()
{
    match spec_get_token(b, p) {
        Err(e) => Err(ParseErrSpec::Tokenize(e)),
        Ok((t, p1)) => {
            proof {
                lemma_get_token_bounds(b, p);
            }
            match leaf_of(b, t) {
                Some(v) => Ok((v, p1)),
                None => if t.kind == TokenKind::ArrayStart {
                    spec_parse_array(b, p1, t.start, seq![], true)
                } else if t.kind == TokenKind::ObjectStart {
                    spec_parse_object(b, p1, t.start, seq![], true)
                } else {
                    Err(
                        unexpected(
                            t,
                            "Expected: value (i.e., null, Bool, Number, String, Array, or Object)."@,
                        ),
                    )
                },
            }
        },
    }
}

/// Parsing the rest of an array opened at `start`, whose items so far are
/// `items`, from position `p`.
pub open spec fn spec_parse_array(
    b: Seq<u8>,
    p: int,
    start: int,
    items: Seq<JsonSpec>,
    maybe_empty: bool,
) -> Result<(JsonSpec, int), ParseErrSpec>
    decreases b.len() - p, 0int,
    when 0 <= p <= b.len()
{
    match spec_get_token(b, p) {
        Err(e) => Err(ParseErrSpec::Tokenize(e)),
        Ok((t, p1)) => {
            proof {
                lemma_get_token_bounds(b, p);
            }
            if t.kind == TokenKind::ArrayEnd && maybe_empty {
                Ok((array_spec(items, start, t.start + t.len), p1))
            } else {
                let item = match leaf_of(b, t) {
                    Some(v) => Ok((v, p1)),
                    None => if t.kind == TokenKind::ArrayStart {
                        spec_parse_array(b, p1, t.start, seq![], true)
                    } else if t.kind == TokenKind::ObjectStart {
                        spec_parse_object(b, p1, t.start, seq![], true)
                    } else {
                        Err(
                            unexpected(
                                t,
                                if maybe_empty {
                                    "Expected: `]` or value (i.e., null, Bool, Number, String, Array, or Object)."@
                                } else {
                                    "Expected: value (i.e., null, Bool, Number, String, Array, or Object)."@
                                },
                            ),
                        )
                    },
                };
                match item {
                    Err(e) => Err(e),
                    Ok((v, p2)) => match spec_get_token(b, p2) {
                        Err(e) => Err(ParseErrSpec::Tokenize(e)),
                        Ok((t2, p3)) => {
                            if t2.kind == TokenKind::Comma {
                                if p < p3 <= b.len() {
                                    spec_parse_array(b, p3, start, items.push(v), false)
                                } else {
                                    Err(unexpected(t2, seq![]))
                                }
                            } else if t2.kind == TokenKind::ArrayEnd {
                                Ok((array_spec(items.push(v), start, t2.start + t2.len), p3))
                            } else {
                                Err(unexpected(t2, "Expected: `]` or `,`."@))
                            }
                        },
                    },
                }
            }
        },
    }
}

/// Parsing the rest of an object opened at `start`, whose entries so far are
/// `entries`, from position `p`.
pub open spec fn spec_parse_object(
    b: Seq<u8>,
    p: int,
    start: int,
    entries: Seq<(JsonKey, JsonSpec)>,
    maybe_empty: bool,
) -> Result<(JsonSpec, int), ParseErrSpec>
    decreases b.len() - p, 1int,
    when 0 <= p <= b.len()
{
    match spec_get_token(b, p) {
        Err(e) => Err(ParseErrSpec::Tokenize(e)),
        Ok((t, p1)) => {
            proof {
                lemma_get_token_bounds(b, p);
            }
            if t.kind == TokenKind::String {
                let key = key_of(b, t);
                match spec_get_token(b, p1) {
                    Err(e) => Err(ParseErrSpec::Tokenize(e)),
                    Ok((t2, p2)) => {
                        proof {
                            lemma_get_token_bounds(b, p1);
                        }
                        if t2.kind == TokenKind::Colon {
                            match spec_parse_value(b, p2) {
                                Err(e) => Err(e),
                                Ok((v, p3)) => match lookup_entry(entries, key.content) {
                                    Some(i) => Err(
                                        ParseErrSpec::Duplicate {
                                            first_start: entries[i].0.start,
                                            first_len: entries[i].0.len,
                                            second_start: key.start,
                                            second_len: key.len,
                                        },
                                    ),
                                    None => {
                                        let entries2 = entries.push((key, v));
                                        match spec_get_token(b, p3) {
                                            Err(e) => Err(ParseErrSpec::Tokenize(e)),
                                            Ok((t3, p4)) => {
                                                if t3.kind == TokenKind::ObjectEnd {
                                                    Ok(
                                                        (
                                                            object_spec(
                                                                entries2,
                                                                start,
                                                                t3.start + t3.len,
                                                            ),
                                                            p4,
                                                        ),
                                                    )
                                                } else if t3.kind == TokenKind::Comma {
                                                    if p < p4 <= b.len() {
                                                        spec_parse_object(
                                                            b,
                                                            p4,
                                                            start,
                                                            entries2,
                                                            false,
                                                        )
                                                    } else {
                                                        Err(unexpected(t3, seq![]))
                                                    }
                                                } else {
                                                    Err(unexpected(t3, "Expected: `,` or `}`."@))
                                                }
                                            },
                                        }
                                    },
                                },
                            }
                        } else {
                            Err(unexpected(t2, "Expected `:`"@))
                        }
                    },
                }
            } else if t.kind == TokenKind::ObjectEnd && maybe_empty {
                Ok((object_spec(entries, start, t.start + t.len), p1))
            } else {
                Err(
                    unexpected(
                        t,
                        if maybe_empty {
                            "Expected: String or `}`."@
                        } else {
                            "Expected: String."@
                        },
                    ),
                )
            }
        },
    }
}

// ---------------------------------------------------------------------------
// The parser.
// ---------------------------------------------------------------------------
/// A parser that reads JSON values one at a time from its input.
#[derive(Debug)]
pub struct JsonParser {
    tokenizer: Tokenizer,
}

impl JsonParser {
    /// The text being parsed.
    pub closed spec fn text(&self) -> Seq<char> {
        self.tokenizer.text()
    }

    /// The bytes being parsed.
    pub open spec fn bytes(&self) -> Seq<u8> {
        utf8_bytes(self.text())
    }

    /// The position of the next unread byte.
    pub closed spec fn pos(&self) -> int {
        self.tokenizer.pos()
    }

    /// Create a parser positioned at the start of `input`.
    pub fn new(input: &str) -> (r: Self)
        ensures
            r.text() == input@,
            r.pos() == 0,
    {
        JsonParser { tokenizer: Tokenizer::new(input) }
    }

    /// Read the next token.
    fn next_token(&mut self) -> (r: Result<Token, ParseError>)
        ensures
            final(self).text() == old(self).text(),
            0 <= old(self).pos() <= old(self).bytes().len() <= usize::MAX,
            match spec_get_token(old(self).bytes(), old(self).pos()) {
                Ok((t, np)) => r matches Ok(rt) && rt@ == t && rt.loc.src@ == old(self).text()
                    && final(self).pos() == np && old(self).pos() < np <= old(self).bytes().len(),
                Err(e) => r matches Err(re) && re@ == ParseErrSpec::Tokenize(e),
            },
    {
        self.tokenizer.check_bounds();
        proof {
            lemma_get_token_bounds(self.bytes(), self.pos());
        }
        match self.tokenizer.get_token() {
            Ok(t) => Ok(t),
            Err(e) => Err(ParseError::TokenizerError(e)),
        }
    }

    /// Read one JSON value.
    pub fn get_value(&mut self) -> (r: Result<LocatedValue, ParseError>)
        ensures
            final(self).text() == old(self).text(),
            match spec_parse_value(old(self).bytes(), old(self).pos()) {
                Ok((v, np)) => r matches Ok(rv) && rv@ == v && final(self).pos() == np
                    && old(self).pos() < np <= old(self).bytes().len(),
                Err(e) => r matches Err(re) && re@ == e,
            },
        decreases old(self).bytes().len() - old(self).pos(), 2int,
    {
        let ghost b = self.bytes();
        let token = self.next_token()?;
        proof {
            lemma_get_token_bounds(b, old(self).pos());
        }
        match token.kind() {
            TokenKind::Null => Ok(LocatedValue::new_null(token.into_loc())),
            TokenKind::Bool(x) => Ok(LocatedValue::new_bool(x, token.into_loc())),
            TokenKind::Number => Ok(LocatedValue::new_number(token.into_loc())),
            TokenKind::String => Ok(LocatedValue::new_string(token.into_loc())),
            TokenKind::ArrayStart => self.get_array(token.as_loc()),
            TokenKind::ObjectStart => self.get_object(token.as_loc()),
            _ => Err(
                ParseError::unexpected_token(
                    token.into_loc(),
                    "Expected: value (i.e., null, Bool, Number, String, Array, or Object).",
                ),
            ),
        }
    }

    /// Read the rest of an array whose opening bracket is at `loc`.
    fn get_array(&mut self, loc: &Loc) -> (r: Result<LocatedValue, ParseError>)
        requires
            loc.src@ == old(self).text(),
            0 <= loc.start < old(self).pos(),
        ensures
            final(self).text() == old(self).text(),
            match spec_parse_array(
                old(self).bytes(),
                old(self).pos(),
                loc.start as int,
                seq![],
                true,
            ) {
                Ok((v, np)) => r matches Ok(rv) && rv@ == v && final(self).pos() == np
                    && old(self).pos() < np <= old(self).bytes().len(),
                Err(e) => r matches Err(re) && re@ == e,
            },
        decreases old(self).bytes().len() - old(self).pos(), 0int,
    {
        let ghost b = self.bytes();
        let ghost p0 = self.pos();
        let mut items: Vec<LocatedValue> = Vec::new();
        let mut maybe_empty = true;
        self.tokenizer.check_bounds();
        proof {
            lemma_values_view(items@);
            assert(values_view(items@) =~= seq![]);
        }
        loop
            invariant
                self.text() == old(self).text(),
                b == self.bytes(),
                loc.src@ == self.text(),
                p0 == old(self).pos(),
                0 <= loc.start < p0 <= self.pos() <= b.len(),
                b.len() <= usize::MAX,
                !maybe_empty ==> p0 < self.pos(),
                spec_parse_array(b, self.pos(), loc.start as int, values_view(items@), maybe_empty)
                    == spec_parse_array(b, p0, loc.start as int, seq![], true),
            decreases b.len() - self.pos(),
        {
            let ghost p = self.pos();
            let token = self.next_token()?;
            proof {
                lemma_get_token_bounds(b, p);
            }
            let kind = token.kind();
            if kind == TokenKind::ArrayEnd && maybe_empty {
                let start = loc.start();
                let end = token.as_loc().end();
                return Ok(LocatedValue::new_array(items, loc.span((start, end - start))));
            }
            let item = match kind {
                TokenKind::Null => LocatedValue::new_null(token.into_loc()),
                TokenKind::Bool(x) => LocatedValue::new_bool(x, token.into_loc()),
                TokenKind::Number => LocatedValue::new_number(token.into_loc()),
                TokenKind::String => LocatedValue::new_string(token.into_loc()),
                TokenKind::ArrayStart => self.get_array(token.as_loc())?,
                TokenKind::ObjectStart => self.get_object(token.as_loc())?,
                _ => {
                    let msg = if maybe_empty {
                        "Expected: `]` or value (i.e., null, Bool, Number, String, Array, or Object)."
                    } else {
                        "Expected: value (i.e., null, Bool, Number, String, Array, or Object)."
                    };
                    return Err(ParseError::unexpected_token(token.into_loc(), msg));
                },
            };
            maybe_empty = false;
            proof {
                lemma_values_view_push(items@, item);
            }
            items.push(item);
            let token = self.next_token()?;
            match token.kind() {
                TokenKind::Comma => {},
                TokenKind::ArrayEnd => {
                    let start = loc.start();
                    let end = token.as_loc().end();
                    return Ok(LocatedValue::new_array(items, loc.span((start, end - start))));
                },
                _ => {
                    return Err(ParseError::unexpected_token(token.into_loc(), "Expected: `]` or `,`."));
                },
            }
        }
    }

    /// Read the rest of an object whose opening brace is at `loc`.
    fn get_object(&mut self, loc: &Loc) -> (r: Result<LocatedValue, ParseError>)
        requires
            loc.src@ == old(self).text(),
            0 <= loc.start < old(self).pos(),
        ensures
            final(self).text() == old(self).text(),
            match spec_parse_object(
                old(self).bytes(),
                old(self).pos(),
                loc.start as int,
                seq![],
                true,
            ) {
                Ok((v, np)) => r matches Ok(rv) && rv@ == v && final(self).pos() == np
                    && old(self).pos() < np <= old(self).bytes().len(),
                Err(e) => r matches Err(re) && re@ == e,
            },
        decreases old(self).bytes().len() - old(self).pos(), 1int,
    {
        let ghost b = self.bytes();
        let ghost p0 = self.pos();
        let mut entries: Vec<(LocatedString, LocatedValue)> = Vec::new();
        let mut maybe_empty = true;
        self.tokenizer.check_bounds();
        proof {
            lemma_entries_view(entries@);
            assert(entries_view(entries@) =~= seq![]);
        }
        loop
            invariant
                self.text() == old(self).text(),
                b == self.bytes(),
                loc.src@ == self.text(),
                p0 == old(self).pos(),
                0 <= loc.start < p0 <= self.pos() <= b.len(),
                b.len() <= usize::MAX,
                !maybe_empty ==> p0 < self.pos(),
                spec_parse_object(
                    b,
                    self.pos(),
                    loc.start as int,
                    entries_view(entries@),
                    maybe_empty,
                ) == spec_parse_object(b, p0, loc.start as int, seq![], true),
            decreases b.len() - self.pos(),
        {
            let ghost p = self.pos();
            let token = self.next_token()?;
            proof {
                lemma_get_token_bounds(b, p);
            }
            let kind = token.kind();
            if kind == TokenKind::String {
                maybe_empty = false;
                let key = LocatedString::new(token.into_loc());
                let ghost p1 = self.pos();
                let token2 = self.next_token()?;
                proof {
                    lemma_get_token_bounds(b, p1);
                }
                if token2.kind() == TokenKind::Colon {
                    let value = self.get_value()?;
                    let key_text = key.as_str().as_bytes();
                    let ghost es = entries_view(entries@);
                    proof {
                        lemma_entries_view(entries@);
                        lemma_lookup_entry(es, key_text@);
                    }
                    let mut i: usize = 0;
                    #[verifier::loop_isolation(false)]
                    while i < entries.len()
                        invariant
                            0 <= i <= entries@.len(),
                            es == entries_view(entries@),
                            es.len() == entries@.len(),
                            key_text@ == key.key_view().content,
                            forall|j: int| 0 <= j < i ==> #[trigger] es[j].0.content != key_text@,
                            forall|j: int|
                                0 <= j < entries@.len() ==> #[trigger] es[j] == (
                                    entries@[j].0.key_view(),
                                    crate::json::value_view(entries@[j].1),
                                ),
                            lookup_entry(es, key_text@) matches Some(x) ==> 0 <= x < es.len()
                                && es[x].0.content == key_text@ && forall|j: int|
                                0 <= j < x ==> #[trigger] es[j].0.content != key_text@,
                            lookup_entry(es, key_text@) is None ==> forall|j: int|
                                0 <= j < es.len() ==> #[trigger] es[j].0.content != key_text@,
                        decreases entries@.len() - i,
                    {
                        if key_has_content(&entries[i].0, key_text) {
                            assert(es[i as int].0.content == key_text@);
                            assert(lookup_entry(es, key_text@) == Some(i as int));
                            let first = Span::from_loc(entries[i].0.as_loc());
                            return Err(ParseError::duplicate_key(first, key.to_loc()));
                        }
                        i = i + 1;
                    }
                    proof {
                        lemma_entries_view_push(entries@, (key, value));
                    }
                    entries.push((key, value));
                } else {
                    return Err(ParseError::unexpected_token(token2.into_loc(), "Expected `:`"));
                }
                let token3 = self.next_token()?;
                match token3.kind() {
                    TokenKind::ObjectEnd => {
                        let start = loc.start();
                        let end = token3.as_loc().end();
                        return Ok(LocatedValue::new_object(entries, loc.span((start, end - start))));
                    },
                    TokenKind::Comma => {},
                    _ => {
                        return Err(
                            ParseError::unexpected_token(token3.into_loc(), "Expected: `,` or `}`."),
                        );
                    },
                }
            } else if kind == TokenKind::ObjectEnd && maybe_empty {
                let start = loc.start();
                let end = token.as_loc().end();
                return Ok(LocatedValue::new_object(entries, loc.span((start, end - start))));
            } else {
                let msg = if maybe_empty {
                    "Expected: String or `}`."
                } else {
                    "Expected: String."
                };
                return Err(ParseError::unexpected_token(token.into_loc(), msg));
            }
        }
    }
}

} // verus!
