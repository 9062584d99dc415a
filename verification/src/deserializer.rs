//! Reading MCP tool descriptions out of located JSON values.
//!
//! The mapping from JSON to descriptions is specified by
//! [`spec_property_type`], [`spec_tool`] and [`spec_server`], functions of
//! the JSON values' content.

use crate::description::{
    lemma_props_view_empty, lemma_props_view_push, lemma_ptypes_view_empty, lemma_ptypes_view_push,
    props_view, ptypes_view, text_bytes, texts_bytes, typedefs_view, tools_view, ParamsSpec, Parameters,
    PropSpec, Property, PropertyType, PropertyTypeDef, PType, ServerDescription, ServerSpec,
    ToolDescription, ToolSpec, TypeDefSpec,
};
use crate::json::{
    entries_view, json_get, lemma_entries_view, lemma_get_decreases, lemma_values_view, same_text,
    values_view, JsonKey, JsonKind, JsonSpec, LocatedString, LocatedValue,
};
use crate::loc::{utf8_bytes, Loc};
use crate::parser::{spec_parse_value, JsonParser, ParseErrSpec, ParseError, Span};
use vstd::prelude::*;
use vstd::string::StringExecFns;

verus! {

/// What was being read when an error was found.
#[derive(Clone, Copy, Debug, PartialEq, Eq, Structural)]
pub enum ContentType {
    ServerDescription,
    ToolDescription,
    ToolParameters,
    Property,
    PropertyType,
}

impl ContentType {
    /// A human-readable name of the content.
    pub fn to_string(&self) -> (r: String)
        ensures
            r@ == content_type_name(*self),
    {
        match self {
            ContentType::ServerDescription => "MCP Server Description".to_string(),
            ContentType::ToolDescription => "MCP Tool Description".to_string(),
            ContentType::ToolParameters => "MCP Tool Input/Output Schema".to_string(),
            ContentType::Property => "JSON Schema Property Description".to_string(),
            ContentType::PropertyType => "JSON Schema Property Type".to_string(),
        }
    }
}

pub open spec fn content_type_name(c: ContentType) -> Seq<char> {
    match c {
        ContentType::ServerDescription => "MCP Server Description"@,
        ContentType::ToolDescription => "MCP Tool Description"@,
        ContentType::ToolParameters => "MCP Tool Input/Output Schema"@,
        ContentType::Property => "JSON Schema Property Description"@,
        ContentType::PropertyType => "JSON Schema Property Type"@,
    }
}

/// An object lacks a key that is needed.
#[derive(Debug)]
pub struct MissingExpectedAttributeError {
    pub loc: Loc,
    pub expected_key: String,
    pub aliases: Vec<String>,
    pub existing_keys: Vec<Span>,
}

/// The ways reading a description can fail.
#[derive(Debug)]
pub enum DeserializationError {
    ParseError(ParseError),
    UnexpectedType { loc: Loc, found: Span, msg: String, content_type: ContentType },
    MissingExpectedAttribute(MissingExpectedAttributeError),
    UnexpectedValue { loc: Loc, found: Span, msg: String, content_type: ContentType },
    ReadError { file_name: String, error: String },
}

/// The mathematical content of a deserialization error.
pub enum DesErrSpec {
    Parse(ParseErrSpec),
    UnexpectedType { start: int, len: int, found: (int, int), msg: Seq<char>, content_type: ContentType },
    Missing {
        start: int,
        len: int,
        expected_key: Seq<char>,
        aliases: Seq<Seq<char>>,
        existing_keys: Seq<(int, int)>,
    },
    UnexpectedValue { start: int, len: int, found: (int, int), msg: Seq<char>, content_type: ContentType },
    Read { file_name: Seq<char>, error: Seq<char> },
}

pub open spec fn strings_view(s: Seq<String>) -> Seq<Seq<char>> {
    s.map_values(|t: String| t@)
}

pub open spec fn spans_view(s: Seq<Span>) -> Seq<(int, int)> {
    s.map_values(|sp: Span| (sp.offset as int, sp.len as int))
}

impl View for DeserializationError {
    type V = DesErrSpec;

    open spec fn view(&self) -> DesErrSpec {
        match self {
            DeserializationError::ParseError(e) => DesErrSpec::Parse(e@),
            DeserializationError::UnexpectedType { loc, found, msg, content_type } =>
                DesErrSpec::UnexpectedType {
                start: loc.start as int,
                len: loc.len as int,
                found: (found.offset as int, found.len as int),
                msg: msg@,
                content_type: *content_type,
            },
            DeserializationError::MissingExpectedAttribute(m) => DesErrSpec::Missing {
                start: m.loc.start as int,
                len: m.loc.len as int,
                expected_key: m.expected_key@,
                aliases: strings_view(m.aliases@),
                existing_keys: spans_view(m.existing_keys@),
            },
            DeserializationError::UnexpectedValue { loc, found, msg, content_type } =>
                DesErrSpec::UnexpectedValue {
                start: loc.start as int,
                len: loc.len as int,
                found: (found.offset as int, found.len as int),
                msg: msg@,
                content_type: *content_type,
            },
            DeserializationError::ReadError { file_name, error } => DesErrSpec::Read {
                file_name: file_name@,
                error: error@,
            },
        }
    }
}

/// A value of the wrong JSON type was found at `v`.
pub open spec fn type_err(v: JsonSpec, msg: Seq<char>, ct: ContentType) -> DesErrSpec {
    DesErrSpec::UnexpectedType { start: v.start, len: v.len, found: (v.start, v.len), msg, content_type: ct }
}

/// The spans of the keys of `v`, if it is an object.
pub open spec fn key_spans(v: JsonSpec) -> Seq<(int, int)> {
    match v.kind {
        JsonKind::Object(entries) => entries.map_values(
            |e: (JsonKey, JsonSpec)| (e.0.start, e.0.len),
        ),
        _ => Seq::empty(),
    }
}

/// The object `v` lacks the key `key` (and its aliases).
pub open spec fn missing(v: JsonSpec, key: Seq<char>, aliases: Seq<Seq<char>>) -> DesErrSpec {
    DesErrSpec::Missing {
        start: v.start,
        len: v.len,
        expected_key: key,
        aliases,
        existing_keys: key_spans(v),
    }
}

/// The message of a deserialization error.
pub open spec fn des_err_message(e: DesErrSpec) -> Seq<char> {
    match e {
        DesErrSpec::Parse(p) => crate::parser::parse_err_message(p),
        DesErrSpec::UnexpectedType { content_type, .. } => "Encountered unexpected JSON type while deserializing "@
            + content_type_name(content_type) + "."@,
        DesErrSpec::Missing { .. } => "Missing expected attribute"@,
        DesErrSpec::UnexpectedValue { .. } => "Unexpected value."@,
        DesErrSpec::Read { file_name, error } => "Error reading "@ + file_name + ": "@ + error,
    }
}

impl DeserializationError {
    /// The message of the error.
    pub fn to_string(&self) -> (r: String)
        ensures
            r@ == des_err_message(self@),
    {
        match self {
            DeserializationError::ParseError(p) => p.to_string(),
            DeserializationError::UnexpectedType { content_type, .. } => {
                let mut s = "Encountered unexpected JSON type while deserializing ".to_string();
                s.append(content_type.to_string().as_str());
                s.append(".");
                s
            },
            DeserializationError::MissingExpectedAttribute(_) => "Missing expected attribute".to_string(),
            DeserializationError::UnexpectedValue { .. } => "Unexpected value.".to_string(),
            DeserializationError::ReadError { file_name, error } => {
                let mut s = "Error reading ".to_string();
                s.append(file_name.as_str());
                s.append(": ");
                s.append(error.as_str());
                s
            },
        }
    }
}

impl DeserializationError {
    /// A value of the wrong JSON type was found.
    pub fn unexpected_type(json_value: &LocatedValue, msg: &str, content_type: ContentType) -> (r:
        Self)
        ensures
            r@ == type_err(json_value@, msg@, content_type),
    {
        proof {
            json_value.lemma_view();
        }
        let loc = json_value.as_loc().clone();
        let found = Span::from_loc(&loc);
        DeserializationError::UnexpectedType { loc, found, msg: msg.to_string(), content_type }
    }

    /// An unexpected value was found; reported as a value of the wrong type.
    pub fn unexpected_value(json_value: &LocatedValue, msg: &str, content_type: ContentType) -> (r:
        Self)
        ensures
            r@ == type_err(json_value@, msg@, content_type),
    {
        Self::unexpected_type(json_value, msg, content_type)
    }

    /// The object `json_value` lacks the key `expected_key`.
    pub fn missing_attribute(
        json_value: &LocatedValue,
        expected_key: &str,
        aliases: Vec<String>,
    ) -> (r: Self)
        ensures
            r@ == missing(json_value@, expected_key@, strings_view(aliases@)),
    {
        proof {
            json_value.lemma_view();
        }
        let loc = json_value.as_loc().clone();
        let mut existing_keys: Vec<Span> = Vec::new();
        match json_value.get_object() {
            Some(entries) => {
                let ghost es = crate::json::entries_view(entries@);
                proof {
                    crate::json::lemma_entries_view(entries@);
                }
                let mut i: usize = 0;
                while i < entries.len()
                    invariant
                        0 <= i <= entries@.len(),
                        es == crate::json::entries_view(entries@),
                        es.len() == entries@.len(),
                        forall|j: int|
                            0 <= j < entries@.len() ==> #[trigger] es[j].0 == entries@[j].0.key_view(),
                        existing_keys@.len() == i,
                        forall|j: int|
                            0 <= j < i ==> #[trigger] existing_keys@[j] == (Span {
                                offset: entries@[j].0.spec_loc().start,
                                len: entries@[j].0.spec_loc().len,
                            }),
                    decreases entries@.len() - i,
                {
                    existing_keys.push(Span::from_loc(entries[i].0.as_loc()));
                    i = i + 1;
                }
                assert(spans_view(existing_keys@) =~= key_spans(json_value@));
            },
            None => {
                assert(spans_view(existing_keys@) =~= key_spans(json_value@));
            },
        }
        DeserializationError::MissingExpectedAttribute(
            MissingExpectedAttributeError {
                loc,
                expected_key: expected_key.to_string(),
                aliases,
                existing_keys,
            },
        )
    }

    /// Reading the file `file_name` failed with `error`.
    pub fn read_error(file_name: String, error: String) -> (r: Self)
        ensures
            r@ == (DesErrSpec::Read { file_name: file_name@, error: error@ }),
    {
        DeserializationError::ReadError { file_name, error }
    }
}

// ---------------------------------------------------------------------------
// The mapping from JSON values to descriptions.
// ---------------------------------------------------------------------------
/// The UTF-8 bytes of a word.
pub open spec fn word(w: Seq<char>) -> Seq<u8> {
    utf8_bytes(w)
}

/// The value under key `k` of the object `v`.
pub open spec fn jget(v: JsonSpec, k: Seq<char>) -> Option<JsonSpec> {
    json_get(v, word(k))
}

/// The value under the first of the keys `ks` that `v` holds.
pub open spec fn jget_first(v: JsonSpec, ks: Seq<Seq<char>>) -> Option<JsonSpec>
    decreases ks.len(),
{
    if ks.len() == 0 {
        None
    } else {
        match jget(v, ks[0]) {
            Some(x) => Some(x),
            None => jget_first(v, ks.drop_first()),
        }
    }
}

/// A value found under one of several keys of an object is smaller than the
/// object.
pub proof fn lemma_get_first_decreases(v: JsonSpec, ks: Seq<Seq<char>>)
    ensures
        jget_first(v, ks) matches Some(c) ==> decreases_to!(v => c),
    decreases ks.len(),
{
    if ks.len() > 0 {
        lemma_get_decreases(v, word(ks[0]));
        lemma_get_first_decreases(v, ks.drop_first());
    }
}

/// `pre` put in front of the sequence in `r`, or the error in `r`.
pub open spec fn prepend<A, E>(pre: Seq<A>, r: Result<Seq<A>, E>) -> Result<Seq<A>, E> {
    match r {
        Ok(rest) => Ok(pre + rest),
        Err(e) => Err(e),
    }
}

pub proof fn lemma_prepend_push<A, E>(pre: Seq<A>, x: A, r: Result<Seq<A>, E>)
    ensures
        prepend(pre, prepend(seq![x], r)) == prepend(pre.push(x), r),
{
    if let Ok(rest) = r {
        assert(pre + (seq![x] + rest) =~= pre.push(x) + rest);
    }
}

/// The content of `v`, if it is a string.
pub open spec fn jstr(v: JsonSpec) -> Option<Seq<u8>> {
    match v.kind {
        JsonKind::String(t) => Some(t),
        _ => None,
    }
}

/// `p` is a prefix of `s`.
pub open spec fn is_prefix(p: Seq<u8>, s: Seq<u8>) -> bool {
    p.len() <= s.len() && s.subrange(0, p.len() as int) == p
}

/// The primitive type named by an element of a `type` array.
pub open spec fn tuple_elem_type(x: JsonSpec, t: Seq<u8>) -> Result<PType, DesErrSpec> {
    if t == word("boolean"@) {
        Ok(PType::Bool)
    } else if t == word("integer"@) {
        Ok(PType::Integer)
    } else if t == word("float"@) {
        Ok(PType::Float)
    } else if t == word("number"@) {
        Ok(PType::Number)
    } else if t == word("string"@) {
        Ok(PType::String)
    } else if t == word("null"@) {
        Ok(PType::Null)
    } else {
        Err(
            type_err(
                x,
                "Expected one of `boolean`, `integer`, `float`, `number`, `string`, `null`."@,
                ContentType::PropertyType,
            ),
        )
    }
}

/// The type of a string with the given `format`.
pub open spec fn format_type(f: Seq<u8>) -> PType {
    if f == word("date"@) || f == word("date-time"@) {
        PType::Datetime
    } else if f == word("duration"@) {
        PType::Duration
    } else if f == word("ipv4"@) || f == word("ipv6"@) {
        PType::IpAddr
    } else if f == word("decimal"@) {
        PType::Decimal
    } else {
        PType::String
    }
}

/// `string` is none of the type names read before it.
proof fn lemma_type_words_differ()
    ensures
        word("string"@) != word("boolean"@),
        word("string"@) != word("integer"@),
        word("string"@) != word("float"@),
        word("string"@) != word("number"@),
{
    reveal_strlit("string");
    reveal_strlit("boolean");
    reveal_strlit("integer");
    reveal_strlit("float");
    reveal_strlit("number");
    crate::strmap::lemma_utf8_injective("string"@, "boolean"@);
    crate::strmap::lemma_utf8_injective("string"@, "integer"@);
    crate::strmap::lemma_utf8_injective("string"@, "float"@);
    crate::strmap::lemma_utf8_injective("string"@, "number"@);
    assert("string"@[0] != "boolean"@[0]);
    assert("string"@[0] != "integer"@[0]);
    assert("string"@[0] != "float"@[0]);
    assert("string"@[0] != "number"@[0]);
}

/// The scalar JSON Schema type names are different words.
proof fn lemma_scalar_type_words_differ()
    ensures
        word("integer"@) != word("boolean"@),
        word("float"@) != word("boolean"@),
        word("float"@) != word("integer"@),
        word("number"@) != word("boolean"@),
        word("number"@) != word("integer"@),
        word("number"@) != word("float"@),
        word("null"@) != word("boolean"@),
        word("null"@) != word("integer"@),
        word("null"@) != word("float"@),
        word("null"@) != word("number"@),
        word("null"@) != word("string"@),
{
    reveal_strlit("boolean");
    reveal_strlit("integer");
    reveal_strlit("float");
    reveal_strlit("number");
    reveal_strlit("null");
    reveal_strlit("string");
    crate::strmap::lemma_utf8_injective("integer"@, "boolean"@);
    crate::strmap::lemma_utf8_injective("float"@, "boolean"@);
    crate::strmap::lemma_utf8_injective("float"@, "integer"@);
    crate::strmap::lemma_utf8_injective("number"@, "boolean"@);
    crate::strmap::lemma_utf8_injective("number"@, "integer"@);
    crate::strmap::lemma_utf8_injective("number"@, "float"@);
    crate::strmap::lemma_utf8_injective("null"@, "boolean"@);
    crate::strmap::lemma_utf8_injective("null"@, "integer"@);
    crate::strmap::lemma_utf8_injective("null"@, "float"@);
    crate::strmap::lemma_utf8_injective("null"@, "number"@);
    crate::strmap::lemma_utf8_injective("null"@, "string"@);
    assert("integer"@[0] != "boolean"@[0]);
    assert("float"@[0] != "boolean"@[0]);
    assert("float"@[0] != "integer"@[0]);
    assert("number"@[0] != "boolean"@[0]);
    assert("number"@[0] != "integer"@[0]);
    assert("number"@[0] != "float"@[0]);
    assert("null"@[0] != "boolean"@[0]);
    assert("null"@[0] != "integer"@[0]);
    assert("null"@[0] != "float"@[0]);
    assert("null"@.len() != "number"@.len());
    assert("null"@[0] != "string"@[0]);
}

/// The scalar JSON Schema types read as themselves, whatever else the
/// schema holds: `boolean` a boolean, `integer` an integer, `float` a
/// float, `number` a number, `null` null.
pub proof fn lemma_scalar_types(v: JsonSpec, tj: JsonSpec)
    ensures
        spec_named_type(v, tj, word("boolean"@)) == Ok::<PType, DesErrSpec>(PType::Bool),
        spec_named_type(v, tj, word("integer"@)) == Ok::<PType, DesErrSpec>(PType::Integer),
        spec_named_type(v, tj, word("float"@)) == Ok::<PType, DesErrSpec>(PType::Float),
        spec_named_type(v, tj, word("number"@)) == Ok::<PType, DesErrSpec>(PType::Number),
        spec_named_type(v, tj, word("null"@)) == Ok::<PType, DesErrSpec>(PType::Null),
{
    lemma_scalar_type_words_differ();
}

/// A string schema with neither `enum` nor `format` reads as a plain
/// string.
pub proof fn lemma_plain_string_schema(v: JsonSpec, tj: JsonSpec)
    requires
        jget(v, "enum"@) is None,
        jget(v, "format"@) is None,
    ensures
        spec_named_type(v, tj, word("string"@)) == Ok::<PType, DesErrSpec>(PType::String),
{
    lemma_type_words_differ();
}

/// The formats that a string may name are different words.
proof fn lemma_format_words_differ()
    ensures
        word("date"@) != word("date-time"@),
        word("date"@) != word("duration"@),
        word("date"@) != word("ipv4"@),
        word("date"@) != word("ipv6"@),
        word("date"@) != word("decimal"@),
        word("date-time"@) != word("duration"@),
        word("date-time"@) != word("ipv4"@),
        word("date-time"@) != word("ipv6"@),
        word("date-time"@) != word("decimal"@),
        word("duration"@) != word("ipv4"@),
        word("duration"@) != word("ipv6"@),
        word("duration"@) != word("decimal"@),
        word("ipv4"@) != word("ipv6"@),
        word("ipv4"@) != word("decimal"@),
        word("ipv6"@) != word("decimal"@),
{
    reveal_strlit("date");
    reveal_strlit("date-time");
    reveal_strlit("duration");
    reveal_strlit("ipv4");
    reveal_strlit("ipv6");
    reveal_strlit("decimal");
    let ws = seq!["date"@, "date-time"@, "duration"@, "ipv4"@, "ipv6"@, "decimal"@];
    assert forall|a: int, b: int| 0 <= a < b < 6 implies word(#[trigger] ws[a]) != word(#[trigger] ws[b]) by {
        crate::strmap::lemma_utf8_injective(ws[a], ws[b]);
        if a == 0 && b == 1 { assert(ws[a].len() != ws[b].len()); }
        if a == 0 && b == 2 { assert(ws[a][1] != ws[b][1]); }
        if a == 0 && b == 3 { assert(ws[a][0] != ws[b][0]); }
        if a == 0 && b == 4 { assert(ws[a][0] != ws[b][0]); }
        if a == 0 && b == 5 { assert(ws[a][1] != ws[b][1]); }
        if a == 1 && b == 2 { assert(ws[a][1] != ws[b][1]); }
        if a == 1 && b == 3 { assert(ws[a][0] != ws[b][0]); }
        if a == 1 && b == 4 { assert(ws[a][0] != ws[b][0]); }
        if a == 1 && b == 5 { assert(ws[a][1] != ws[b][1]); }
        if a == 2 && b == 3 { assert(ws[a][0] != ws[b][0]); }
        if a == 2 && b == 4 { assert(ws[a][0] != ws[b][0]); }
        if a == 2 && b == 5 { assert(ws[a][1] != ws[b][1]); }
        if a == 3 && b == 4 { assert(ws[a][3] != ws[b][3]); }
        if a == 3 && b == 5 { assert(ws[a][0] != ws[b][0]); }
        if a == 4 && b == 5 { assert(ws[a][0] != ws[b][0]); }
    }
    assert(word(ws[0]) != word(ws[1]));
    assert(word(ws[0]) != word(ws[2]));
    assert(word(ws[0]) != word(ws[3]));
    assert(word(ws[0]) != word(ws[4]));
    assert(word(ws[0]) != word(ws[5]));
    assert(word(ws[1]) != word(ws[2]));
    assert(word(ws[1]) != word(ws[3]));
    assert(word(ws[1]) != word(ws[4]));
    assert(word(ws[1]) != word(ws[5]));
    assert(word(ws[2]) != word(ws[3]));
    assert(word(ws[2]) != word(ws[4]));
    assert(word(ws[2]) != word(ws[5]));
    assert(word(ws[3]) != word(ws[4]));
    assert(word(ws[3]) != word(ws[5]));
    assert(word(ws[4]) != word(ws[5]));
}

/// What the `format` of a string schema makes of it, for every format:
/// `date` and `date-time` a date, `duration` a duration, `ipv4` and
/// `ipv6` an IP address, `decimal` a decimal, and any other format a plain
/// string.
pub proof fn lemma_string_formats(f: Seq<u8>)
    ensures
        (format_type(f) == PType::Datetime) <==> (f == word("date"@) || f == word("date-time"@)),
        (format_type(f) == PType::Duration) <==> f == word("duration"@),
        (format_type(f) == PType::IpAddr) <==> (f == word("ipv4"@) || f == word("ipv6"@)),
        (format_type(f) == PType::Decimal) <==> f == word("decimal"@),
        (format_type(f) == PType::String) <==> !(f == word("date"@) || f == word("date-time"@) || f == word("duration"@)
            || f == word("ipv4"@) || f == word("ipv6"@) || f == word("decimal"@)),
{
    lemma_format_words_differ();
}

/// A string schema without `enum` whose `format` is the string `f` reads as
/// the type `lemma_string_formats` gives `f`: an IP address for `ipv4` as
/// for `ipv6`, a duration for `duration`, and so on.
pub proof fn lemma_string_schema_format(v: JsonSpec, tj: JsonSpec, fj: JsonSpec, f: Seq<u8>)
    requires
        jget(v, "enum"@) is None,
        jget(v, "format"@) == Some(fj),
        jstr(fj) == Some(f),
    ensures
        (spec_named_type(v, tj, word("string"@)) == Ok::<PType, DesErrSpec>(PType::IpAddr)) <==> (f == word("ipv4"@) || f == word("ipv6"@)),
        (spec_named_type(v, tj, word("string"@)) == Ok::<PType, DesErrSpec>(PType::Duration)) <==> f == word("duration"@),
        (spec_named_type(v, tj, word("string"@)) == Ok::<PType, DesErrSpec>(PType::Datetime)) <==> (f == word("date"@) || f == word("date-time"@)),
        (spec_named_type(v, tj, word("string"@)) == Ok::<PType, DesErrSpec>(PType::Decimal)) <==> f == word("decimal"@),
{
    lemma_string_formats(f);
    lemma_type_words_differ();
}

/// The texts of a list of JSON values that must all be strings; the first
/// value that is not a string is reported with `msg`.
pub open spec fn spec_strings(vs: Seq<JsonSpec>, msg: Seq<char>, ct: ContentType) -> Result<
    Seq<Seq<u8>>,
    DesErrSpec,
>
    decreases vs.len(),
{
    if vs.len() == 0 {
        Ok(Seq::empty())
    } else {
        match jstr(vs[0]) {
            Some(t) => prepend(seq![t], spec_strings(vs.drop_first(), msg, ct)),
            None => Err(type_err(vs[0], msg, ct)),
        }
    }
}

pub open spec fn enum_item_msg() -> Seq<char> {
    "Expected element of `enum` attribute to be a string."@
}

pub open spec fn required_item_msg() -> Seq<char> {
    "Expected element of `required` to be a string."@
}

/// The names of the required properties, read from an optional `required`
/// attribute.
pub open spec fn spec_required(o: Option<JsonSpec>, ct: ContentType) -> Result<
    Seq<Seq<u8>>,
    DesErrSpec,
> {
    match o {
        None => Ok(Seq::empty()),
        Some(j) => match j.kind {
            JsonKind::Array(rs) => spec_strings(rs, required_item_msg(), ct),
            JsonKind::Bool(false) => Ok(Seq::empty()),
            _ => Err(type_err(j, "Expected `required` attribute to be a JSON array of strings."@, ct)),
        },
    }
}

/// The type described by the JSON Schema `v` whose `type` attribute `tj` is
/// the string `t`.
pub open spec fn spec_named_type(v: JsonSpec, tj: JsonSpec, t: Seq<u8>) -> Result<PType, DesErrSpec>
    decreases v, 0int,
{
    if t == word("boolean"@) {
        Ok(PType::Bool)
    } else if t == word("integer"@) {
        Ok(PType::Integer)
    } else if t == word("float"@) {
        Ok(PType::Float)
    } else if t == word("number"@) {
        Ok(PType::Number)
    } else if t == word("string"@) {
        match jget(v, "enum"@) {
            Some(ej) => match ej.kind {
                JsonKind::Array(vs) => match spec_strings(vs, enum_item_msg(), ContentType::PropertyType) {
                    Err(e) => Err(e),
                    Ok(names) => if names.len() == 0 {
                        Err(
                            type_err(
                                ej,
                                "Expected non-empty list of variants for `enum` attribute."@,
                                ContentType::PropertyType,
                            ),
                        )
                    } else {
                        Ok(PType::Enum(names))
                    },
                },
                _ => Err(
                    type_err(
                        ej,
                        "Expected `enum` attributed to be a JSON array of strings."@,
                        ContentType::PropertyType,
                    ),
                ),
            },
            None => match jget(v, "format"@) {
                Some(fj) => match jstr(fj) {
                    Some(f) => Ok(format_type(f)),
                    None => Err(
                        type_err(
                            fj,
                            "Expected `format` attribute to be a string."@,
                            ContentType::PropertyType,
                        ),
                    ),
                },
                None => Ok(PType::String),
            },
        }
    } else if t == word("null"@) {
        Ok(PType::Null)
    } else if t == word("array"@) {
        match jget(v, "items"@) {
            Some(ij) => {
                proof {
                    lemma_get_decreases(v, word("items"@));
                }
                if ij.kind is Object {
                    match spec_property_type(ij) {
                        Ok(et) => Ok(PType::Array(Box::new(et))),
                        Err(e) => Err(e),
                    }
                } else {
                    Err(
                        type_err(
                            ij,
                            "Expected `items` attribute to be a JSON Schema (object) describing the type of array items."@,
                            ContentType::PropertyType,
                        ),
                    )
                }
            },
            None => Err(missing(v, "items"@, seq![])),
        }
    } else if t == word("object"@) {
        match spec_required(jget(v, "required"@), ContentType::ToolParameters) {
            Err(e) => Err(e),
            Ok(req) => {
                let props = match jget(v, "properties"@) {
                    None => Ok(Seq::<PropSpec>::empty()),
                    Some(pj) => {
                        proof {
                            lemma_get_decreases(v, word("properties"@));
                        }
                        match pj.kind {
                            JsonKind::Object(es) => spec_prop_entries(es, req),
                            JsonKind::Bool(false) => Ok(Seq::<PropSpec>::empty()),
                            _ => Err(
                                type_err(
                                    pj,
                                    "Expected `properties` attribute to be a JSON object."@,
                                    ContentType::ToolParameters,
                                ),
                            ),
                        }
                    },
                };
                match props {
                    Err(e) => Err(e),
                    Ok(ps) => {
                        let additional = match jget(
                            v,
                            "additionalProperties"@,
                        ) {
                            Some(aj) => {
                                proof {
                                    lemma_get_decreases(
                                        v,
                                        word("additionalProperties"@),
                                    );
                                }
                                match spec_property_type(aj) {
                                    Ok(at) => Some(Box::new(at)),
                                    Err(_) => None,
                                }
                            },
                            None => None,
                        };
                        Ok(PType::Object(ps, additional))
                    },
                }
            },
        }
    } else {
        Err(
            type_err(
                tj,
                "Expected one of: `boolean`, `integer`, `float`, `number`, `string`, `null`, `array`, `object`."@,
                ContentType::PropertyType,
            ),
        )
    }
}

/// The type described by the JSON Schema `v`.
pub open spec fn spec_property_type(v: JsonSpec) -> Result<PType, DesErrSpec>
    decreases v, 1int,
{
    match v.kind {
        JsonKind::Object(_) => match jget(v, "type"@) {
            Some(tj) => {
                proof {
                    lemma_get_decreases(v, word("type"@));
                }
                match jstr(tj) {
                    Some(t) => spec_named_type(v, tj, t),
                    None => match tj.kind {
                        JsonKind::Array(tys) => match spec_tuple_elems(tys) {
                            Ok(ts) => Ok(PType::Tuple(ts)),
                            Err(e) => Err(e),
                        },
                        _ => Err(
                            type_err(
                                tj,
                                "Expected `type` attribute to be a string."@,
                                ContentType::PropertyType,
                            ),
                        ),
                    },
                }
            },
            None => match jget_first(v, seq!["anyOf"@, "oneOf"@]) {
                Some(uj) => {
                    proof {
                        lemma_get_first_decreases(v, seq!["anyOf"@, "oneOf"@]);
                    }
                    match uj.kind {
                        JsonKind::Array(ts) => match spec_ptype_list(ts) {
                            Ok(l) => Ok(PType::Union(l)),
                            Err(e) => Err(e),
                        },
                        _ => Err(
                            type_err(
                                v,
                                "Expected `anyOf` or `oneOf` attribute to be an array of JSON Schemas."@,
                                ContentType::PropertyType,
                            ),
                        ),
                    }
                },
                None => match jget(v, "$ref"@) {
                    Some(rj) => match jstr(rj) {
                        Some(s) => if is_prefix(word("#/$defs/"@), s) {
                            Ok(PType::Ref(s.subrange(word("#/$defs/"@).len() as int, s.len() as int)))
                        } else {
                            Err(
                                type_err(
                                    rj,
                                    "Expected `$ref` attribute to begin with `#/$defs/`"@,
                                    ContentType::Property,
                                ),
                            )
                        },
                        None => Err(
                            type_err(
                                rj,
                                "Expected `$ref` attribute to be a string."@,
                                ContentType::PropertyType,
                            ),
                        ),
                    },
                    None => Err(missing(v, "type"@, seq!["anyOf"@, "oneOf"@, "$ref"@])),
                },
            },
        },
        _ => Err(
            type_err(v, "Expected Property Type Schema to be a JSON object."@, ContentType::Property),
        ),
    }
}

/// The element types of a `type` array.
pub open spec fn spec_tuple_elems(s: Seq<JsonSpec>) -> Result<Seq<PType>, DesErrSpec>
    decreases s, 0int,
{
    if s.len() == 0 {
        Ok(Seq::empty())
    } else {
        let x = s[0];
        let r = match jstr(x) {
            Some(t) => tuple_elem_type(x, t),
            None => spec_property_type(x),
        };
        match r {
            Ok(t) => prepend(seq![t], spec_tuple_elems(s.drop_first())),
            Err(e) => Err(e),
        }
    }
}

/// The types of a list of JSON Schemas.
pub open spec fn spec_ptype_list(s: Seq<JsonSpec>) -> Result<Seq<PType>, DesErrSpec>
    decreases s, 0int,
{
    if s.len() == 0 {
        Ok(Seq::empty())
    } else {
        match spec_property_type(s[0]) {
            Ok(t) => prepend(seq![t], spec_ptype_list(s.drop_first())),
            Err(e) => Err(e),
        }
    }
}

/// The property named `name` described by the JSON Schema `v`.
pub open spec fn spec_property(v: JsonSpec, name: Seq<u8>, required: bool) -> Result<
    PropSpec,
    DesErrSpec,
>
    decreases v, 2int,
{
    let desc = match jget(v, "description"@) {
        Some(dj) => match jstr(dj) {
            Some(s) => Ok(Some(s)),
            None => Err(
                type_err(dj, "Expected `description` attribute to be a string."@, ContentType::Property),
            ),
        },
        None => Ok(None),
    };
    match desc {
        Err(e) => Err(e),
        Ok(d) => match spec_property_type(v) {
            Ok(t) => Ok(PropSpec { name, description: d, required, ptype: t }),
            Err(e) => Err(e),
        },
    }
}

/// The properties described by the entries of a `properties` object.
pub open spec fn spec_prop_entries(es: Seq<(JsonKey, JsonSpec)>, req: Seq<Seq<u8>>) -> Result<
    Seq<PropSpec>,
    DesErrSpec,
>
    decreases es, 0int,
{
    if es.len() == 0 {
        Ok(Seq::empty())
    } else {
        let first = es[0];
        match spec_property(first.1, first.0.content, req.contains(first.0.content)) {
            Ok(p) => prepend(seq![p], spec_prop_entries(es.drop_first(), req)),
            Err(e) => Err(e),
        }
    }
}

/// The properties read from an optional `properties` attribute.
pub open spec fn spec_properties(o: Option<JsonSpec>, req: Seq<Seq<u8>>, ct: ContentType) -> Result<
    Seq<PropSpec>,
    DesErrSpec,
> {
    match o {
        None => Ok(Seq::empty()),
        Some(pj) => match pj.kind {
            JsonKind::Object(es) => spec_prop_entries(es, req),
            JsonKind::Bool(false) => Ok(Seq::empty()),
            _ => Err(type_err(pj, "Expected `properties` attribute to be a JSON object."@, ct)),
        },
    }
}

/// The type definition named by the key `k`, described by the JSON Schema
/// `v`.
#[verifier::opaque]
pub open spec fn spec_typedef(k: JsonKey, v: JsonSpec) -> Result<TypeDefSpec, DesErrSpec> {
    let desc = match jget(v, "description"@) {
        Some(dj) => jstr(dj),
        None => None,
    };
    match spec_property_type(v) {
        Ok(t) => Ok(TypeDefSpec { name: k.content, ptype: t, description: desc }),
        Err(e) => Err(e),
    }
}

/// The type definitions described by the entries of a `$defs` object.
pub open spec fn spec_typedef_entries(es: Seq<(JsonKey, JsonSpec)>) -> Result<
    Seq<TypeDefSpec>,
    DesErrSpec,
>
    decreases es.len(),
{
    if es.len() == 0 {
        Ok(Seq::empty())
    } else {
        match spec_typedef(es[0].0, es[0].1) {
            Ok(d) => prepend(seq![d], spec_typedef_entries(es.drop_first())),
            Err(e) => Err(e),
        }
    }
}

/// The type definitions read from an optional `$defs` attribute.
pub open spec fn spec_typedefs(o: Option<JsonSpec>, ct: ContentType) -> Result<
    Seq<TypeDefSpec>,
    DesErrSpec,
> {
    match o {
        None => Ok(Seq::empty()),
        Some(j) => match j.kind {
            JsonKind::Object(es) => spec_typedef_entries(es),
            _ => Err(
                type_err(
                    j,
                    "Expected attribute `$defs` to be a JSON object mapping type names to JSON Type Schemas."@,
                    ct,
                ),
            ),
        },
    }
}

/// The parameters described by an input or output schema.
pub open spec fn spec_params(v0: JsonSpec) -> Result<ParamsSpec, DesErrSpec> {
    let v = match jget(v0, "json"@) {
        Some(x) => x,
        None => v0,
    };
    match v.kind {
        JsonKind::Object(_) => match spec_typedefs(jget(v, "$defs"@), ContentType::ToolParameters) {
            Err(e) => Err(e),
            Ok(defs) => match spec_required(jget(v, "required"@), ContentType::ToolParameters) {
                Err(e) => Err(e),
                Ok(req) => match spec_properties(
                    jget(v, "properties"@),
                    req,
                    ContentType::ToolParameters,
                ) {
                    Err(e) => Err(e),
                    Ok(ps) => Ok(ParamsSpec { properties: ps, type_defs: defs }),
                },
            },
        },
        _ => Err(
            type_err(
                v,
                "Expected Input/Output schema of a MCP Tool Description to be a JSON object."@,
                ContentType::ToolParameters,
            ),
        ),
    }
}

pub open spec fn empty_params() -> ParamsSpec {
    ParamsSpec { properties: Seq::empty(), type_defs: Seq::empty() }
}

/// The tool described by the JSON value `v`.
pub open spec fn spec_tool(v: JsonSpec) -> Result<ToolSpec, DesErrSpec> {
    match v.kind {
        JsonKind::Object(_) => {
            let name = match jget(v, "name"@) {
                Some(s) => match jstr(s) {
                    Some(t) => Ok(t),
                    None => Err(
                        type_err(
                            s,
                            "Expected `name` attribute of a MCP tool description to be a String."@,
                            ContentType::ToolDescription,
                        ),
                    ),
                },
                None => Err(missing(v, "name"@, seq![])),
            };
            match name {
                Err(e) => Err(e),
                Ok(n) => {
                    let inputs = match jget_first(v, seq!["parameters"@, "inputSchema"@]) {
                        Some(ij) => spec_params(ij),
                        None => Err(missing(v, "parameters"@, seq!["inputSchema"@])),
                    };
                    match inputs {
                        Err(e) => Err(e),
                        Ok(ins) => {
                            let outputs = match jget(v, "outputSchema"@) {
                                Some(oj) => spec_params(oj),
                                None => Ok(empty_params()),
                            };
                            match outputs {
                                Err(e) => Err(e),
                                Ok(outs) => match spec_typedefs(
                                    jget(v, "$defs"@),
                                    ContentType::ToolParameters,
                                ) {
                                    Err(e) => Err(e),
                                    Ok(defs) => {
                                        let desc = match jget(v, "description"@) {
                                            Some(dj) => match jstr(dj) {
                                                Some(s) => Ok(Some(s)),
                                                None => Err(
                                                    type_err(
                                                        dj,
                                                        "Expected `description` attribute of a MCP Tool Description to be a string."@,
                                                        ContentType::ToolDescription,
                                                    ),
                                                ),
                                            },
                                            None => Ok(None),
                                        };
                                        match desc {
                                            Err(e) => Err(e),
                                            Ok(d) => Ok(
                                                ToolSpec {
                                                    name: n,
                                                    description: d,
                                                    inputs: ins,
                                                    outputs: outs,
                                                    type_defs: defs,
                                                },
                                            ),
                                        }
                                    },
                                },
                            }
                        },
                    }
                },
            }
        },
        _ => Err(
            type_err(
                v,
                "Expected a JSON object containing an MCP tool description."@,
                ContentType::ToolDescription,
            ),
        ),
    }
}

/// The tools described by a list of JSON values.
pub open spec fn spec_tools(vs: Seq<JsonSpec>) -> Result<Seq<ToolSpec>, DesErrSpec>
    decreases vs.len(),
{
    if vs.len() == 0 {
        Ok(Seq::empty())
    } else {
        match spec_tool(vs[0]) {
            Ok(t) => prepend(seq![t], spec_tools(vs.drop_first())),
            Err(e) => Err(e),
        }
    }
}

/// The server described by the JSON value `v`: an MCP `list_tools`
/// response, an array of tool descriptions, or a single tool description.
pub open spec fn spec_server(v: JsonSpec) -> Result<ServerSpec, DesErrSpec> {
    match v.kind {
        JsonKind::Object(_) => match jget(v, "result"@) {
            Some(result) => match jget(result, "tools"@) {
                Some(tj) => match tj.kind {
                    JsonKind::Array(ts) => match spec_tools(ts) {
                        Err(e) => Err(e),
                        Ok(tools) => match spec_typedefs(
                            jget(result, "$defs"@),
                            ContentType::ToolParameters,
                        ) {
                            Err(e) => Err(e),
                            Ok(defs) => Ok(ServerSpec { tools, type_defs: defs }),
                        },
                    },
                    _ => Err(
                        type_err(
                            tj,
                            "Expected `tools` attribute of MCP tool_list response to be an array of MCP tool descriptions."@,
                            ContentType::ServerDescription,
                        ),
                    ),
                },
                None => Err(missing(result, "tools"@, seq![])),
            },
            None => match spec_tool(v) {
                Ok(t) => Ok(ServerSpec { tools: seq![t], type_defs: Seq::empty() }),
                Err(e) => Err(e),
            },
        },
        JsonKind::Array(ts) => match spec_tools(ts) {
            Ok(tools) => Ok(ServerSpec { tools, type_defs: Seq::empty() }),
            Err(e) => Err(e),
        },
        _ => Err(
            type_err(
                v,
                "Expected either a JSON object containing an MCP list_tool response, a JSON array of tool descriptions, or a JSON object describing a single MCP tool."@,
                ContentType::ServerDescription,
            ),
        ),
    }
}

// ---------------------------------------------------------------------------
// Reading descriptions out of located JSON values.
// ---------------------------------------------------------------------------
/// The view of an optional located value.
pub open spec fn opt_view(o: Option<&LocatedValue>) -> Option<JsonSpec> {
    match o {
        Some(v) => Some(v@),
        None => None,
    }
}

/// Reads a list of JSON values that must all be strings.
pub fn strings_from_json_values(
    items: &Vec<LocatedValue>,
    msg: &str,
    content_type: ContentType,
) -> (r: Result<Vec<String>, DeserializationError>)
    ensures
        match spec_strings(values_view(items@), msg@, content_type) {
            Ok(ts) => r matches Ok(x) && texts_bytes(x@) == ts,
            Err(e) => r matches Err(x) && x@ == e,
        },
{
    let ghost vs = values_view(items@);
    proof {
        lemma_values_view(items@);
    }
    let mut out: Vec<String> = Vec::new();
    let mut i: usize = 0;
    proof {
        assert(vs.skip(0) =~= vs);
        assert(texts_bytes(out@) + Seq::empty() =~= Seq::<Seq<u8>>::empty());
    }
    while i < items.len()
        invariant
            0 <= i <= items@.len(),
            vs == values_view(items@),
            vs.len() == items@.len(),
            forall|j: int| 0 <= j < items@.len() ==> #[trigger] vs[j] == items@[j]@,
            spec_strings(vs, msg@, content_type) == prepend(
                texts_bytes(out@),
                spec_strings(vs.skip(i as int), msg@, content_type),
            ),
        decreases items@.len() - i,
    {
        proof {
            assert(vs.skip(i as int)[0] == vs[i as int]);
            assert(vs.skip(i as int).drop_first() =~= vs.skip(i + 1));
        }
        match items[i].get_string() {
            Some(s) => {
                proof {
                    lemma_prepend_push(
                        texts_bytes(out@),
                        text_bytes(s),
                        spec_strings(vs.skip(i + 1), msg@, content_type),
                    );
                    assert(texts_bytes(out@.push(s)) =~= texts_bytes(out@).push(text_bytes(s)));
                }
                out.push(s);
            },
            None => {
                return Err(DeserializationError::unexpected_type(&items[i], msg, content_type));
            },
        }
        i = i + 1;
    }
    proof {
        assert(vs.skip(i as int) =~= Seq::<JsonSpec>::empty());
        assert(texts_bytes(out@) + Seq::<Seq<u8>>::empty() =~= texts_bytes(out@));
    }
    Ok(out)
}

/// Reads the names listed in an optional `required` attribute.
pub fn required_from_json_value(json_value: Option<&LocatedValue>, content_type: ContentType) -> (r:
    Result<Vec<String>, DeserializationError>)
    ensures
        match spec_required(opt_view(json_value), content_type) {
            Ok(ts) => r matches Ok(x) && texts_bytes(x@) == ts,
            Err(e) => r matches Err(x) && x@ == e,
        },
{
    match json_value {
        Some(json_value) => {
            if let Some(reqs) = json_value.get_array() {
                strings_from_json_values(
                    reqs,
                    "Expected element of `required` to be a string.",
                    content_type,
                )
            } else {
                match json_value.get_bool() {
                    Some(false) => {
                        let out: Vec<String> = Vec::new();
                        assert(texts_bytes(out@) =~= Seq::<Seq<u8>>::empty());
                        Ok(out)
                    },
                    _ => Err(
                        DeserializationError::unexpected_type(
                            json_value,
                            "Expected `required` attribute to be a JSON array of strings.",
                            content_type,
                        ),
                    ),
                }
            }
        },
        None => {
            let out: Vec<String> = Vec::new();
            assert(texts_bytes(out@) =~= Seq::<Seq<u8>>::empty());
            Ok(out)
        },
    }
}

/// Whether `names` holds the text `s`.
pub fn contains_text(names: &Vec<String>, s: &str) -> (r: bool)
    ensures
        r == texts_bytes(names@).contains(utf8_bytes(s@)),
{
    let mut i: usize = 0;
    while i < names.len()
        invariant
            0 <= i <= names@.len(),
            forall|j: int| 0 <= j < i ==> text_bytes(#[trigger] names@[j]) != utf8_bytes(s@),
        decreases names@.len() - i,
    {
        if same_text(names[i].as_str(), s) {
            assert(texts_bytes(names@)[i as int] == utf8_bytes(s@));
            return true;
        }
        i = i + 1;
    }
    assert forall|j: int| 0 <= j < texts_bytes(names@).len() implies texts_bytes(names@)[j] != utf8_bytes(
        s@,
    ) by {
        assert(texts_bytes(names@)[j] == text_bytes(names@[j]));
    }
    false
}

/// The view of a list of keys.
pub open spec fn keys_view(ks: Seq<&str>) -> Seq<Seq<char>> {
    ks.map_values(|k: &str| k@)
}

/// The value stored under the first of `key_aliases` that the object
/// `json_value` holds.
pub fn get_value_from_map<'a>(json_value: &'a LocatedValue, key_aliases: &[&str]) -> (r: Option<
    &'a LocatedValue,
>)
    ensures
        match jget_first(json_value@, keys_view(key_aliases@)) {
            Some(x) => r matches Some(y) && y@ == x,
            None => r is None,
        },
{
    let ghost ks = keys_view(key_aliases@);
    let mut i: usize = 0;
    assert(ks.skip(0) =~= ks);
    while i < key_aliases.len()
        invariant
            0 <= i <= key_aliases@.len(),
            ks == keys_view(key_aliases@),
            jget_first(json_value@, ks) == jget_first(json_value@, ks.skip(i as int)),
        decreases key_aliases@.len() - i,
    {
        proof {
            assert(ks.skip(i as int)[0] == key_aliases@[i as int]@);
            assert(ks.skip(i as int).drop_first() =~= ks.skip(i + 1));
        }
        let found = json_value.get(key_aliases[i]);
        if found.is_some() {
            return found;
        }
        i = i + 1;
    }
    assert(ks.skip(i as int) =~= Seq::<Seq<char>>::empty());
    None
}

/// The rest of `s` after `prefix`, if `s` begins with `prefix`.
pub fn strip_ascii_prefix<'a>(s: &'a str, prefix: &str) -> (r: Option<&'a str>)
    requires
        utf8_bytes(prefix@).len() > 0,
        utf8_bytes(prefix@).last() < 128,
    ensures
        match r {
            Some(t) => is_prefix(utf8_bytes(prefix@), utf8_bytes(s@)) && utf8_bytes(t@)
                == utf8_bytes(s@).subrange(
                utf8_bytes(prefix@).len() as int,
                utf8_bytes(s@).len() as int,
            ),
            None => !is_prefix(utf8_bytes(prefix@), utf8_bytes(s@)),
        },
{
    let sb = s.as_bytes();
    let pb = prefix.as_bytes();
    let n = pb.len();
    if n > sb.len() {
        return None;
    }
    let mut i: usize = 0;
    while i < n
        invariant
            n == pb@.len(),
            n <= sb@.len(),
            pb@ == utf8_bytes(prefix@),
            sb@ == utf8_bytes(s@),
            0 <= i <= n,
            forall|j: int| 0 <= j < i ==> sb@[j] == pb@[j],
        decreases n - i,
    {
        if sb[i] != pb[i] {
            assert(sb@.subrange(0, n as int)[i as int] != pb@[i as int]);
            return None;
        }
        i = i + 1;
    }
    assert(sb@.subrange(0, n as int) =~= pb@);
    proof {
        crate::loc::lemma_utf8_bytes_valid(s@);
        crate::loc::lemma_boundary_around_ascii(sb@, n - 1);
    }
    let (_head, rest) = s.split_at(n);
    Some(rest)
}

/// The primitive type named by an element `t` of a `type` array.
pub fn primitive_type_from_name(ty_json: &LocatedValue, t: &str) -> (r: Result<
    PropertyType,
    DeserializationError,
>)
    ensures
        match tuple_elem_type(ty_json@, utf8_bytes(t@)) {
            Ok(p) => r matches Ok(x) && x@ == p,
            Err(e) => r matches Err(x) && x@ == e,
        },
{
    if same_text(t, "boolean") {
        Ok(PropertyType::Bool)
    } else if same_text(t, "integer") {
        Ok(PropertyType::Integer)
    } else if same_text(t, "float") {
        Ok(PropertyType::Float)
    } else if same_text(t, "number") {
        Ok(PropertyType::Number)
    } else if same_text(t, "string") {
        Ok(PropertyType::String)
    } else if same_text(t, "null") {
        Ok(PropertyType::Null)
    } else {
        Err(
            DeserializationError::unexpected_value(
                ty_json,
                "Expected one of `boolean`, `integer`, `float`, `number`, `string`, `null`.",
                ContentType::PropertyType,
            ),
        )
    }
}

/// The type of a string with the `format` named `f`.
pub fn format_type_from_name(f: &str) -> (r: PropertyType)
    ensures
        r@ == format_type(utf8_bytes(f@)),
{
    if same_text(f, "date") || same_text(f, "date-time") {
        PropertyType::Datetime
    } else if same_text(f, "duration") {
        PropertyType::Duration
    } else if same_text(f, "ipv4") || same_text(f, "ipv6") {
        PropertyType::IpAddr
    } else if same_text(f, "decimal") {
        PropertyType::Decimal
    } else {
        PropertyType::String
    }
}

/// Reads the type described by the JSON Schema `json_value`.
pub fn property_type_from_json_value(json_value: &LocatedValue) -> (r: Result<
    PropertyType,
    DeserializationError,
>)
    ensures
        match spec_property_type(json_value@) {
            Ok(t) => r matches Ok(x) && x@ == t,
            Err(e) => r matches Err(x) && x@ == e,
        },
    decreases json_value@, 1int,
{
    let ghost v = json_value@;
    if !json_value.is_object() {
        return Err(
            DeserializationError::unexpected_type(
                json_value,
                "Expected Property Type Schema to be a JSON object.",
                ContentType::Property,
            ),
        );
    }
    if let Some(type_json) = json_value.get("type") {
        proof {
            lemma_get_decreases(v, word("type"@));
        }
        match type_json.get_str() {
            Some(t) => property_type_from_type_name(json_value, type_json, t),
            None => match type_json.get_array() {
                Some(types_json) => {
                    proof {
                        assert(decreases_to!(type_json@ => type_json@.kind));
                        assert(decreases_to!(type_json@.kind => type_json@.kind->Array_0));
                    }
                    match tuple_types_from_json_values(types_json) {
                        Ok(types) => Ok(PropertyType::Tuple { types }),
                        Err(e) => Err(e),
                    }
                },
                None => Err(
                    DeserializationError::unexpected_type(
                        type_json,
                        "Expected `type` attribute to be a string.",
                        ContentType::PropertyType,
                    ),
                ),
            },
        }
    } else {
        let union_keys: [&str; 2] = ["anyOf", "oneOf"];
        proof {
            assert(keys_view(union_keys@) =~= seq!["anyOf"@, "oneOf"@]);
        }
        if let Some(union_json) = get_value_from_map(json_value, &union_keys) {
            proof {
                lemma_get_first_decreases(v, seq!["anyOf"@, "oneOf"@]);
            }
            match union_json.get_array() {
                Some(type_arr) => {
                    proof {
                        assert(decreases_to!(union_json@ => union_json@.kind));
                        assert(decreases_to!(union_json@.kind => union_json@.kind->Array_0));
                    }
                    match union_types_from_json_values(type_arr) {
                        Ok(types) => Ok(PropertyType::Union { types }),
                        Err(e) => Err(e),
                    }
                },
                None => Err(
                    DeserializationError::unexpected_type(
                        json_value,
                        "Expected `anyOf` or `oneOf` attribute to be an array of JSON Schemas.",
                        ContentType::PropertyType,
                    ),
                ),
            }
        } else if let Some(ref_json) = json_value.get("$ref") {
            if let Some(s) = ref_json.get_str() {
                let prefix = "#/$defs/";
                proof {
                    reveal_strlit("#/$defs/");
                    vstd::utf8::is_ascii_chars_encode_utf8(prefix@);
                }
                match strip_ascii_prefix(s, prefix) {
                    Some(rest) => Ok(PropertyType::Ref { name: rest.to_string() }),
                    None => Err(
                        DeserializationError::unexpected_value(
                            ref_json,
                            "Expected `$ref` attribute to begin with `#/$defs/`",
                            ContentType::Property,
                        ),
                    ),
                }
            } else {
                Err(
                    DeserializationError::unexpected_type(
                        ref_json,
                        "Expected `$ref` attribute to be a string.",
                        ContentType::PropertyType,
                    ),
                )
            }
        } else {
            let aliases = vec!["anyOf".to_string(), "oneOf".to_string(), "$ref".to_string()];
            proof {
                assert(strings_view(aliases@) =~= seq!["anyOf"@, "oneOf"@, "$ref"@]);
            }
            Err(DeserializationError::missing_attribute(json_value, "type", aliases))
        }
    }
}

/// Reads the type described by the JSON Schema `json_value` whose `type`
/// attribute `type_json` is the string `ty_name`.
pub fn property_type_from_type_name(
    json_value: &LocatedValue,
    type_json: &LocatedValue,
    ty_name: &str,
) -> (r: Result<PropertyType, DeserializationError>)
    ensures
        match spec_named_type(json_value@, type_json@, utf8_bytes(ty_name@)) {
            Ok(t) => r matches Ok(x) && x@ == t,
            Err(e) => r matches Err(x) && x@ == e,
        },
    decreases json_value@, 0int,
{
    let ghost v = json_value@;
    if same_text(ty_name, "boolean") {
        Ok(PropertyType::Bool)
    } else if same_text(ty_name, "integer") {
        Ok(PropertyType::Integer)
    } else if same_text(ty_name, "float") {
        Ok(PropertyType::Float)
    } else if same_text(ty_name, "number") {
        Ok(PropertyType::Number)
    } else if same_text(ty_name, "string") {
        if let Some(enum_json) = json_value.get("enum") {
            if let Some(enum_variants) = enum_json.get_array() {
                match strings_from_json_values(
                    enum_variants,
                    "Expected element of `enum` attribute to be a string.",
                    ContentType::PropertyType,
                ) {
                    Ok(variants) => {
                        if variants.len() == 0 {
                            Err(
                                DeserializationError::unexpected_value(
                                    enum_json,
                                    "Expected non-empty list of variants for `enum` attribute.",
                                    ContentType::PropertyType,
                                ),
                            )
                        } else {
                            Ok(PropertyType::Enum { variants })
                        }
                    },
                    Err(e) => Err(e),
                }
            } else {
                Err(
                    DeserializationError::unexpected_type(
                        enum_json,
                        "Expected `enum` attributed to be a JSON array of strings.",
                        ContentType::PropertyType,
                    ),
                )
            }
        } else if let Some(format_json) = json_value.get("format") {
            match format_json.get_str() {
                Some(f) => Ok(format_type_from_name(f)),
                None => Err(
                    DeserializationError::unexpected_type(
                        format_json,
                        "Expected `format` attribute to be a string.",
                        ContentType::PropertyType,
                    ),
                ),
            }
        } else {
            Ok(PropertyType::String)
        }
    } else if same_text(ty_name, "null") {
        Ok(PropertyType::Null)
    } else if same_text(ty_name, "array") {
        if let Some(items_json) = json_value.get("items") {
            proof {
                lemma_get_decreases(v, word("items"@));
            }
            if items_json.is_object() {
                match property_type_from_json_value(items_json) {
                    Ok(items_type) => Ok(PropertyType::Array { element_ty: Box::new(items_type) }),
                    Err(e) => Err(e),
                }
            } else {
                Err(
                    DeserializationError::unexpected_type(
                        items_json,
                        "Expected `items` attribute to be a JSON Schema (object) describing the type of array items.",
                        ContentType::PropertyType,
                    ),
                )
            }
        } else {
            let aliases: Vec<String> = Vec::new();
            proof {
                assert(strings_view(aliases@) =~= Seq::<Seq<char>>::empty());
            }
            Err(DeserializationError::missing_attribute(json_value, "items", aliases))
        }
    } else if same_text(ty_name, "object") {
        let required = match required_from_json_value(
            json_value.get("required"),
            ContentType::ToolParameters,
        ) {
            Ok(req) => req,
            Err(e) => {
                return Err(e);
            },
        };
        let properties = match json_value.get("properties") {
            Some(props_json) => {
                proof {
                    lemma_get_decreases(v, word("properties"@));
                }
                match properties_from_json_value(
                    Some(props_json),
                    &required,
                    ContentType::ToolParameters,
                ) {
                    Ok(ps) => ps,
                    Err(e) => {
                        return Err(e);
                    },
                }
            },
            None => {
                let ps: Vec<Property> = Vec::new();
                proof {
                    lemma_props_view_empty(ps@);
                }
                ps
            },
        };
        let additional_properties = match json_value.get("additionalProperties") {
            Some(additional_json) => {
                proof {
                    lemma_get_decreases(v, word("additionalProperties"@));
                }
                match property_type_from_json_value(additional_json) {
                    Ok(t) => Some(Box::new(t)),
                    Err(_) => None,
                }
            },
            None => None,
        };
        Ok(PropertyType::Object { properties, additional_properties })
    } else {
        Err(
            DeserializationError::unexpected_value(
                type_json,
                "Expected one of: `boolean`, `integer`, `float`, `number`, `string`, `null`, `array`, `object`.",
                ContentType::PropertyType,
            ),
        )
    }
}

/// Reads the element types of a `type` array.
pub fn tuple_types_from_json_values(items: &Vec<LocatedValue>) -> (r: Result<
    Vec<PropertyType>,
    DeserializationError,
>)
    ensures
        match spec_tuple_elems(values_view(items@)) {
            Ok(ts) => r matches Ok(x) && ptypes_view(x@) == ts,
            Err(e) => r matches Err(x) && x@ == e,
        },
    decreases values_view(items@), 0int,
{
    let ghost vs = values_view(items@);
    proof {
        lemma_values_view(items@);
    }
    let mut out: Vec<PropertyType> = Vec::new();
    proof {
        lemma_ptypes_view_empty(out@);
        assert(vs.skip(0) =~= vs);
        assert(ptypes_view(out@) + spec_tuple_elems(vs)->Ok_0 =~= spec_tuple_elems(vs)->Ok_0);
    }
    let mut i: usize = 0;
    while i < items.len()
        invariant
            0 <= i <= items@.len(),
            vs == values_view(items@),
            vs.len() == items@.len(),
            forall|j: int| 0 <= j < items@.len() ==> #[trigger] vs[j] == items@[j]@,
            spec_tuple_elems(vs) == prepend(ptypes_view(out@), spec_tuple_elems(vs.skip(i as int))),
        decreases items@.len() - i,
    {
        proof {
            assert(vs.skip(i as int)[0] == vs[i as int]);
            assert(vs.skip(i as int).drop_first() =~= vs.skip(i + 1));
            assert(decreases_to!(vs => vs[i as int]));
        }
        let ty_json = &items[i];
        let t = match ty_json.get_str() {
            Some(name) => primitive_type_from_name(ty_json, name),
            None => property_type_from_json_value(ty_json),
        };
        match t {
            Ok(t) => {
                proof {
                    lemma_prepend_push(ptypes_view(out@), t@, spec_tuple_elems(vs.skip(i + 1)));
                    lemma_ptypes_view_push(out@, t);
                }
                out.push(t);
            },
            Err(e) => {
                return Err(e);
            },
        }
        i = i + 1;
    }
    proof {
        assert(vs.skip(i as int) =~= Seq::<JsonSpec>::empty());
        assert(ptypes_view(out@) + Seq::<PType>::empty() =~= ptypes_view(out@));
    }
    Ok(out)
}

/// Reads the types of the alternatives of a union.
pub fn union_types_from_json_values(items: &Vec<LocatedValue>) -> (r: Result<
    Vec<PropertyType>,
    DeserializationError,
>)
    ensures
        match spec_ptype_list(values_view(items@)) {
            Ok(ts) => r matches Ok(x) && ptypes_view(x@) == ts,
            Err(e) => r matches Err(x) && x@ == e,
        },
    decreases values_view(items@), 0int,
{
    let ghost vs = values_view(items@);
    proof {
        lemma_values_view(items@);
    }
    let mut out: Vec<PropertyType> = Vec::new();
    proof {
        lemma_ptypes_view_empty(out@);
        assert(vs.skip(0) =~= vs);
        assert(ptypes_view(out@) + spec_ptype_list(vs)->Ok_0 =~= spec_ptype_list(vs)->Ok_0);
    }
    let mut i: usize = 0;
    while i < items.len()
        invariant
            0 <= i <= items@.len(),
            vs == values_view(items@),
            vs.len() == items@.len(),
            forall|j: int| 0 <= j < items@.len() ==> #[trigger] vs[j] == items@[j]@,
            spec_ptype_list(vs) == prepend(ptypes_view(out@), spec_ptype_list(vs.skip(i as int))),
        decreases items@.len() - i,
    {
        proof {
            assert(vs.skip(i as int)[0] == vs[i as int]);
            assert(vs.skip(i as int).drop_first() =~= vs.skip(i + 1));
            assert(decreases_to!(vs => vs[i as int]));
        }
        match property_type_from_json_value(&items[i]) {
            Ok(t) => {
                proof {
                    lemma_prepend_push(ptypes_view(out@), t@, spec_ptype_list(vs.skip(i + 1)));
                    lemma_ptypes_view_push(out@, t);
                }
                out.push(t);
            },
            Err(e) => {
                return Err(e);
            },
        }
        i = i + 1;
    }
    proof {
        assert(vs.skip(i as int) =~= Seq::<JsonSpec>::empty());
        assert(ptypes_view(out@) + Seq::<PType>::empty() =~= ptypes_view(out@));
    }
    Ok(out)
}

/// A measure for an optional value: the value itself, or `null`.
pub open spec fn opt_measure(o: Option<&LocatedValue>) -> JsonSpec {
    match o {
        Some(v) => v@,
        None => JsonSpec { kind: JsonKind::Null, start: 0, len: 0 },
    }
}

/// Reads the properties of an optional `properties` attribute; `required`
/// names those that are required.
pub fn properties_from_json_value(
    json_value: Option<&LocatedValue>,
    required: &Vec<String>,
    content_type: ContentType,
) -> (r: Result<Vec<Property>, DeserializationError>)
    ensures
        match spec_properties(opt_view(json_value), texts_bytes(required@), content_type) {
            Ok(ps) => r matches Ok(x) && props_view(x@) == ps,
            Err(e) => r matches Err(x) && x@ == e,
        },
    decreases opt_measure(json_value), 3int,
{
    match json_value {
        Some(json_value) => {
            if let Some(props_obj) = json_value.get_object() {
                proof {
                    assert(decreases_to!(json_value@ => json_value@.kind));
                    assert(decreases_to!(json_value@.kind => json_value@.kind->Object_0));
                }
                properties_from_entries(props_obj, required)
            } else {
                match json_value.get_bool() {
                    Some(false) => {
                        let out: Vec<Property> = Vec::new();
                        proof {
                            lemma_props_view_empty(out@);
                        }
                        Ok(out)
                    },
                    _ => Err(
                        DeserializationError::unexpected_type(
                            json_value,
                            "Expected `properties` attribute to be a JSON object.",
                            content_type,
                        ),
                    ),
                }
            }
        },
        None => {
            let out: Vec<Property> = Vec::new();
            proof {
                lemma_props_view_empty(out@);
            }
            Ok(out)
        },
    }
}

/// Reads the properties described by the entries of a `properties` object.
pub fn properties_from_entries(
    entries: &Vec<(LocatedString, LocatedValue)>,
    required: &Vec<String>,
) -> (r: Result<Vec<Property>, DeserializationError>)
    ensures
        match spec_prop_entries(entries_view(entries@), texts_bytes(required@)) {
            Ok(ps) => r matches Ok(x) && props_view(x@) == ps,
            Err(e) => r matches Err(x) && x@ == e,
        },
    decreases entries_view(entries@), 2int,
{
    let ghost es = entries_view(entries@);
    let ghost req = texts_bytes(required@);
    proof {
        lemma_entries_view(entries@);
    }
    let mut out: Vec<Property> = Vec::new();
    proof {
        lemma_props_view_empty(out@);
        assert(es.skip(0) =~= es);
        assert(props_view(out@) + spec_prop_entries(es, req)->Ok_0 =~= spec_prop_entries(
            es,
            req,
        )->Ok_0);
    }
    let mut i: usize = 0;
    while i < entries.len()
        invariant
            0 <= i <= entries@.len(),
            es == entries_view(entries@),
            req == texts_bytes(required@),
            es.len() == entries@.len(),
            forall|j: int|
                0 <= j < entries@.len() ==> #[trigger] es[j] == (
                    entries@[j].0.key_view(),
                    entries@[j].1@,
                ),
            spec_prop_entries(es, req) == prepend(
                props_view(out@),
                spec_prop_entries(es.skip(i as int), req),
            ),
        decreases entries@.len() - i,
    {
        proof {
            assert(es.skip(i as int)[0] == es[i as int]);
            assert(es.skip(i as int).drop_first() =~= es.skip(i + 1));
            assert(decreases_to!(es => es[i as int]));
            assert(decreases_to!(es[i as int] => es[i as int].1));
        }
        let name = entries[i].0.to_string();
        let is_required = contains_text(required, name.as_str());
        match property_from_json_value(&entries[i].1, name, is_required) {
            Ok(p) => {
                proof {
                    lemma_prepend_push(props_view(out@), p@, spec_prop_entries(es.skip(i + 1), req));
                    lemma_props_view_push(out@, p);
                }
                out.push(p);
            },
            Err(e) => {
                return Err(e);
            },
        }
        i = i + 1;
    }
    proof {
        assert(es.skip(i as int) =~= Seq::<(JsonKey, JsonSpec)>::empty());
        assert(props_view(out@) + Seq::<PropSpec>::empty() =~= props_view(out@));
    }
    Ok(out)
}

/// Reads the property named `name` described by the JSON Schema
/// `json_value`.
pub fn property_from_json_value(json_value: &LocatedValue, name: String, required: bool) -> (r:
    Result<Property, DeserializationError>)
    ensures
        match spec_property(json_value@, text_bytes(name), required) {
            Ok(p) => r matches Ok(x) && x@ == p,
            Err(e) => r matches Err(x) && x@ == e,
        },
    decreases json_value@, 2int,
{
    let description = match json_value.get("description") {
        Some(desc_json) => match desc_json.get_string() {
            Some(d) => Some(d),
            None => {
                return Err(
                    DeserializationError::unexpected_type(
                        desc_json,
                        "Expected `description` attribute to be a string.",
                        ContentType::Property,
                    ),
                );
            },
        },
        None => None,
    };
    match property_type_from_json_value(json_value) {
        Ok(t) => Ok(Property::new(name, required, t, description)),
        Err(e) => Err(e),
    }
}

/// Reads the type definition named by `key`, described by the JSON Schema
/// `val`.
pub fn typedef_from_entry(key: &LocatedString, val: &LocatedValue) -> (r: Result<
    PropertyTypeDef,
    DeserializationError,
>)
    ensures
        match spec_typedef(key.key_view(), val@) {
            Ok(d) => r matches Ok(x) && x@ == d,
            Err(e) => r matches Err(x) && x@ == e,
        },
{
    reveal(spec_typedef);
    let name = key.to_string();
    let description = match val.get("description") {
        Some(desc) => desc.get_string(),
        None => None,
    };
    match property_type_from_json_value(val) {
        Ok(ptype) => Ok(PropertyTypeDef::new(name, ptype, description)),
        Err(e) => Err(e),
    }
}

/// Reads the type definitions described by the entries of a `$defs`
/// object.
pub fn typedefs_from_entries(defs: &Vec<(LocatedString, LocatedValue)>) -> (r: Result<
    Vec<PropertyTypeDef>,
    DeserializationError,
>)
    ensures
        match spec_typedef_entries(entries_view(defs@)) {
            Ok(ds) => r matches Ok(x) && typedefs_view(x@) == ds,
            Err(e) => r matches Err(x) && x@ == e,
        },
{
    let ghost es = entries_view(defs@);
    proof {
        lemma_entries_view(defs@);
    }
    let mut out: Vec<PropertyTypeDef> = Vec::new();
    proof {
        assert(es.skip(0) =~= es);
        assert(typedefs_view(out@) + spec_typedef_entries(es)->Ok_0
            =~= spec_typedef_entries(es)->Ok_0);
    }
    let mut i: usize = 0;
    while i < defs.len()
        invariant
            0 <= i <= defs@.len(),
            es == entries_view(defs@),
            es.len() == defs@.len(),
            forall|j: int|
                0 <= j < defs@.len() ==> #[trigger] es[j] == (
                    defs@[j].0.key_view(),
                    defs@[j].1@,
                ),
            spec_typedef_entries(es) == prepend(
                typedefs_view(out@),
                spec_typedef_entries(es.skip(i as int)),
            ),
        decreases defs@.len() - i,
    {
        proof {
            assert(es.skip(i as int)[0] == es[i as int]);
            assert(es.skip(i as int).drop_first() =~= es.skip(i + 1));
        }
        match typedef_from_entry(&defs[i].0, &defs[i].1) {
            Ok(def) => {
                proof {
                    lemma_prepend_push(
                        typedefs_view(out@),
                        def@,
                        spec_typedef_entries(es.skip(i + 1)),
                    );
                    assert(typedefs_view(out@.push(def)) =~= typedefs_view(out@).push(
                        def@,
                    ));
                }
                out.push(def);
            },
            Err(e) => {
                return Err(e);
            },
        }
        i = i + 1;
    }
    proof {
        assert(es.skip(i as int) =~= Seq::<(JsonKey, JsonSpec)>::empty());
        assert(typedefs_view(out@) + Seq::<TypeDefSpec>::empty() =~= typedefs_view(
            out@,
        ));
    }
    Ok(out)
}

/// Reads the type definitions of an optional `$defs` attribute.
pub fn typedefs_from_json_value(json_value: Option<&LocatedValue>, content_type: ContentType) -> (r:
    Result<Vec<PropertyTypeDef>, DeserializationError>)
    ensures
        match spec_typedefs(opt_view(json_value), content_type) {
            Ok(ds) => r matches Ok(x) && typedefs_view(x@) == ds,
            Err(e) => r matches Err(x) && x@ == e,
        },
{
    match json_value {
        None => {
            let out: Vec<PropertyTypeDef> = Vec::new();
            assert(typedefs_view(out@) =~= Seq::<TypeDefSpec>::empty());
            Ok(out)
        },
        Some(json_value) => {
            if let Some(defs) = json_value.get_object() {
                typedefs_from_entries(defs)
            } else {
                Err(
                    DeserializationError::unexpected_type(
                        json_value,
                        "Expected attribute `$defs` to be a JSON object mapping type names to JSON Type Schemas.",
                        content_type,
                    ),
                )
            }
        },
    }
}

/// Reads the parameters described by an input or output schema, unwrapping
/// a `json` wrapper where there is one.
pub fn parameters_from_json_value(json_value: &LocatedValue) -> (r: Result<
    Parameters,
    DeserializationError,
>)
    ensures
        match spec_params(json_value@) {
            Ok(p) => r matches Ok(x) && x@ == p,
            Err(e) => r matches Err(x) && x@ == e,
        },
{
    let json_value = match json_value.get("json") {
        Some(inner) => inner,
        None => json_value,
    };
    if json_value.is_object() {
        let type_defs = match typedefs_from_json_value(
            json_value.get("$defs"),
            ContentType::ToolParameters,
        ) {
            Ok(d) => d,
            Err(e) => {
                return Err(e);
            },
        };
        let required = match required_from_json_value(
            json_value.get("required"),
            ContentType::ToolParameters,
        ) {
            Ok(req) => req,
            Err(e) => {
                return Err(e);
            },
        };
        let properties = match properties_from_json_value(
            json_value.get("properties"),
            &required,
            ContentType::ToolParameters,
        ) {
            Ok(ps) => ps,
            Err(e) => {
                return Err(e);
            },
        };
        Ok(Parameters::new(properties, type_defs))
    } else {
        Err(
            DeserializationError::unexpected_type(
                json_value,
                "Expected Input/Output schema of a MCP Tool Description to be a JSON object.",
                ContentType::ToolParameters,
            ),
        )
    }
}

/// Reads a tool description out of a JSON value.
pub fn tool_description_from_json_value(json_value: LocatedValue) -> (r: Result<
    ToolDescription,
    DeserializationError,
>)
    ensures
        match spec_tool(json_value@) {
            Ok(t) => r matches Ok(x) && x@ == t,
            Err(e) => r matches Err(x) && x@ == e,
        },
{
    tool_description_from_json_value_inner(&json_value)
}

/// Reads a tool description out of a borrowed JSON value.
pub fn tool_description_from_json_value_inner(json_value: &LocatedValue) -> (r: Result<
    ToolDescription,
    DeserializationError,
>)
    ensures
        match spec_tool(json_value@) {
            Ok(t) => r matches Ok(x) && x@ == t,
            Err(e) => r matches Err(x) && x@ == e,
        },
{
    if !json_value.is_object() {
        return Err(
            DeserializationError::unexpected_type(
                json_value,
                "Expected a JSON object containing an MCP tool description.",
                ContentType::ToolDescription,
            ),
        );
    }
    let name = match json_value.get("name") {
        Some(s) => match s.get_string() {
            Some(n) => n,
            None => {
                return Err(
                    DeserializationError::unexpected_type(
                        s,
                        "Expected `name` attribute of a MCP tool description to be a String.",
                        ContentType::ToolDescription,
                    ),
                );
            },
        },
        None => {
            let aliases: Vec<String> = Vec::new();
            proof {
                assert(strings_view(aliases@) =~= Seq::<Seq<char>>::empty());
            }
            return Err(DeserializationError::missing_attribute(json_value, "name", aliases));
        },
    };
    let input_keys: [&str; 2] = ["parameters", "inputSchema"];
    proof {
        assert(keys_view(input_keys@) =~= seq!["parameters"@, "inputSchema"@]);
    }
    let inputs = match get_value_from_map(json_value, &input_keys) {
        Some(inputs_json) => match parameters_from_json_value(inputs_json) {
            Ok(p) => p,
            Err(e) => {
                return Err(e);
            },
        },
        None => {
            let aliases = vec!["inputSchema".to_string()];
            proof {
                assert(strings_view(aliases@) =~= seq!["inputSchema"@]);
            }
            return Err(DeserializationError::missing_attribute(json_value, "parameters", aliases));
        },
    };
    let outputs = match json_value.get("outputSchema") {
        Some(outputs_json) => match parameters_from_json_value(outputs_json) {
            Ok(p) => p,
            Err(e) => {
                return Err(e);
            },
        },
        None => {
            let props: Vec<Property> = Vec::new();
            let defs: Vec<PropertyTypeDef> = Vec::new();
            proof {
                lemma_props_view_empty(props@);
                assert(typedefs_view(defs@) =~= Seq::<TypeDefSpec>::empty());
            }
            Parameters::new(props, defs)
        },
    };
    let type_defs = match typedefs_from_json_value(
        json_value.get("$defs"),
        ContentType::ToolParameters,
    ) {
        Ok(d) => d,
        Err(e) => {
            return Err(e);
        },
    };
    let description = match json_value.get("description") {
        Some(desc_json) => match desc_json.get_string() {
            Some(d) => Some(d),
            None => {
                return Err(
                    DeserializationError::unexpected_type(
                        desc_json,
                        "Expected `description` attribute of a MCP Tool Description to be a string.",
                        ContentType::ToolDescription,
                    ),
                );
            },
        },
        None => None,
    };
    Ok(ToolDescription::new(name, inputs, outputs, type_defs, description))
}

/// Reads the tool descriptions of a list of JSON values.
pub fn tools_from_json_values(items: &Vec<LocatedValue>) -> (r: Result<
    Vec<ToolDescription>,
    DeserializationError,
>)
    ensures
        match spec_tools(values_view(items@)) {
            Ok(ts) => r matches Ok(x) && tools_view(x@) == ts,
            Err(e) => r matches Err(x) && x@ == e,
        },
{
    let ghost vs = values_view(items@);
    proof {
        lemma_values_view(items@);
    }
    let mut out: Vec<ToolDescription> = Vec::new();
    proof {
        assert(vs.skip(0) =~= vs);
        assert(tools_view(out@) + spec_tools(vs)->Ok_0 =~= spec_tools(vs)->Ok_0);
    }
    let mut i: usize = 0;
    while i < items.len()
        invariant
            0 <= i <= items@.len(),
            vs == values_view(items@),
            vs.len() == items@.len(),
            forall|j: int| 0 <= j < items@.len() ==> #[trigger] vs[j] == items@[j]@,
            spec_tools(vs) == prepend(tools_view(out@), spec_tools(vs.skip(i as int))),
        decreases items@.len() - i,
    {
        proof {
            assert(vs.skip(i as int)[0] == vs[i as int]);
            assert(vs.skip(i as int).drop_first() =~= vs.skip(i + 1));
        }
        match tool_description_from_json_value_inner(&items[i]) {
            Ok(t) => {
                proof {
                    lemma_prepend_push(tools_view(out@), t@, spec_tools(vs.skip(i + 1)));
                    assert(tools_view(out@.push(t)) =~= tools_view(out@).push(t@));
                }
                out.push(t);
            },
            Err(e) => {
                return Err(e);
            },
        }
        i = i + 1;
    }
    proof {
        assert(vs.skip(i as int) =~= Seq::<JsonSpec>::empty());
        assert(tools_view(out@) + Seq::<ToolSpec>::empty() =~= tools_view(out@));
    }
    Ok(out)
}

/// Reads a server description out of a JSON value: an MCP `list_tools`
/// response, an array of tool descriptions, or a single tool description.
pub fn server_description_from_json_value(json_value: LocatedValue) -> (r: Result<
    ServerDescription,
    DeserializationError,
>)
    ensures
        match spec_server(json_value@) {
            Ok(t) => r matches Ok(x) && x@ == t,
            Err(e) => r matches Err(x) && x@ == e,
        },
{
    if json_value.is_object() {
        match json_value.get("result") {
            Some(result) => match result.get("tools") {
                Some(tools_json) => {
                    if let Some(tools) = tools_json.get_array() {
                        let tools = match tools_from_json_values(tools) {
                            Ok(ts) => ts,
                            Err(e) => {
                                return Err(e);
                            },
                        };
                        match typedefs_from_json_value(
                            result.get("$defs"),
                            ContentType::ToolParameters,
                        ) {
                            Ok(defs) => Ok(ServerDescription::new(tools, defs)),
                            Err(e) => Err(e),
                        }
                    } else {
                        Err(
                            DeserializationError::unexpected_type(
                                tools_json,
                                "Expected `tools` attribute of MCP tool_list response to be an array of MCP tool descriptions.",
                                ContentType::ServerDescription,
                            ),
                        )
                    }
                },
                None => {
                    let aliases: Vec<String> = Vec::new();
                    proof {
                        assert(strings_view(aliases@) =~= Seq::<Seq<char>>::empty());
                    }
                    Err(DeserializationError::missing_attribute(result, "tools", aliases))
                },
            },
            None => match tool_description_from_json_value_inner(&json_value) {
                Ok(t) => {
                    let defs: Vec<PropertyTypeDef> = Vec::new();
                    let tools = vec![t];
                    proof {
                        assert(typedefs_view(defs@) =~= Seq::<TypeDefSpec>::empty());
                        assert(tools_view(tools@) =~= seq![t@]);
                    }
                    Ok(ServerDescription::new(tools, defs))
                },
                Err(e) => Err(e),
            },
        }
    } else if let Some(tools) = json_value.get_array() {
        match tools_from_json_values(tools) {
            Ok(ts) => {
                let defs: Vec<PropertyTypeDef> = Vec::new();
                proof {
                    assert(typedefs_view(defs@) =~= Seq::<TypeDefSpec>::empty());
                }
                Ok(ServerDescription::new(ts, defs))
            },
            Err(e) => Err(e),
        }
    } else {
        Err(
            DeserializationError::unexpected_type(
                &json_value,
                "Expected either a JSON object containing an MCP list_tool response, a JSON array of tool descriptions, or a JSON object describing a single MCP tool.",
                ContentType::ServerDescription,
            ),
        )
    }
}

/// What reading `text` as a tool description gives: the parse error, or
/// what the first JSON value of the text describes.
pub open spec fn spec_tool_from_text(text: Seq<char>) -> Result<ToolSpec, DesErrSpec> {
    match spec_parse_value(utf8_bytes(text), 0) {
        Ok((v, _)) => spec_tool(v),
        Err(pe) => Err(DesErrSpec::Parse(pe)),
    }
}

/// What reading `text` as a server description gives: the parse error, or
/// what the first JSON value of the text describes.
pub open spec fn spec_server_from_text(text: Seq<char>) -> Result<ServerSpec, DesErrSpec> {
    match spec_parse_value(utf8_bytes(text), 0) {
        Ok((v, _)) => spec_server(v),
        Err(pe) => Err(DesErrSpec::Parse(pe)),
    }
}

impl ToolDescription {
    /// Reads an MCP tool description out of JSON text.
    pub fn from_json_str(json_str: &str) -> (r: Result<Self, DeserializationError>)
        ensures
            match spec_tool_from_text(json_str@) {
                Ok(t) => r matches Ok(x) && x@ == t,
                Err(e) => r matches Err(x) && x@ == e,
            },
    {
        let mut parser = JsonParser::new(json_str);
        match parser.get_value() {
            Ok(v) => tool_description_from_json_value(v),
            Err(e) => Err(DeserializationError::ParseError(e)),
        }
    }
}

impl ServerDescription {
    /// Reads an MCP `list_tools` response, or a JSON array of tool
    /// descriptions, out of JSON text.
    pub fn from_json_str(json_str: &str) -> (r: Result<Self, DeserializationError>)
        ensures
            match spec_server_from_text(json_str@) {
                Ok(t) => r matches Ok(x) && x@ == t,
                Err(e) => r matches Err(x) && x@ == e,
            },
    {
        let mut parser = JsonParser::new(json_str);
        match parser.get_value() {
            Ok(v) => server_description_from_json_value(v),
            Err(e) => Err(DeserializationError::ParseError(e)),
        }
    }
}

} // verus!
