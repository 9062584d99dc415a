//! JSON values that remember the span of the source each part was read from.

use crate::loc::{lemma_boundary_around_ascii, lemma_utf8_bytes_valid, utf8_bytes, Loc};
use crate::tokenizer::QUOTE;
use vstd::prelude::*;

verus! {

/// The span covers a quoted string literal.
pub open spec fn quoted(loc: Loc) -> bool {
    &&& loc.len >= 2
    &&& loc.in_bounds()
    &&& loc.bytes()[loc.start as int] == QUOTE
    &&& loc.bytes()[loc.end_pos() - 1] == QUOTE
}

/// The span is not empty and starts and ends with ASCII bytes.
pub open spec fn ascii_delimited(loc: Loc) -> bool {
    &&& loc.len >= 1
    &&& loc.in_bounds()
    &&& loc.bytes()[loc.start as int] < 128
    &&& loc.bytes()[loc.end_pos() - 1] < 128
}

/// The bytes of the span.
pub open spec fn span_bytes(loc: Loc) -> Seq<u8> {
    loc.bytes().subrange(loc.start as int, loc.end_pos())
}

/// The bytes strictly between the first and the last byte of the span.
pub open spec fn quoted_content(loc: Loc) -> Seq<u8> {
    loc.bytes().subrange(loc.start + 1, loc.end_pos() - 1)
}

/// An object key: its span and the bytes between its quotes.
pub struct JsonKey {
    pub start: int,
    pub len: int,
    pub content: Seq<u8>,
}

/// The mathematical content of a located JSON value.
pub enum JsonKind {
    Null,
    Bool(bool),
    /// The bytes of the number literal.
    Number(Seq<u8>),
    /// The bytes between the quotes, escape sequences left as written.
    String(Seq<u8>),
    Array(Seq<JsonSpec>),
    Object(Seq<(JsonKey, JsonSpec)>),
}

/// A JSON value with the span it was read from.
pub struct JsonSpec {
    pub kind: JsonKind,
    pub start: int,
    pub len: int,
}

/// The first value stored under `content` among `entries`.
pub open spec fn lookup_entry(entries: Seq<(JsonKey, JsonSpec)>, content: Seq<u8>) -> Option<int>
    decreases entries.len(),
{
    if entries.len() == 0 {
        None
    } else if entries[0].0.content == content {
        Some(0)
    } else {
        match lookup_entry(entries.drop_first(), content) {
            Some(i) => Some(i + 1),
            None => None,
        }
    }
}

/// The value stored under key `content` in an object, if `v` is an object
/// holding that key.
pub open spec fn json_get(v: JsonSpec, content: Seq<u8>) -> Option<JsonSpec> {
    match v.kind {
        JsonKind::Object(entries) => match lookup_entry(entries, content) {
            Some(i) => Some(entries[i].1),
            None => None,
        },
        _ => None,
    }
}

pub proof fn lemma_lookup_entry(entries: Seq<(JsonKey, JsonSpec)>, content: Seq<u8>)
    ensures
        lookup_entry(entries, content) matches Some(i) ==> 0 <= i < entries.len()
            && entries[i].0.content == content && forall|j: int|
            0 <= j < i ==> #[trigger] entries[j].0.content != content,
        lookup_entry(entries, content) is None ==> forall|j: int|
            0 <= j < entries.len() ==> #[trigger] entries[j].0.content != content,
    decreases entries.len(),
{
    if entries.len() > 0 {
        lemma_lookup_entry(entries.drop_first(), content);
        if entries[0].0.content != content {
            assert forall|j: int| 1 <= j < entries.len() implies #[trigger] entries[j] == entries.drop_first()[j - 1] by {}
        }
    }
}

/// A string literal that remembers its span; the key of a located object.
#[derive(Debug)]
pub struct LocatedString {
    loc: Loc,
}

impl LocatedString {
    #[verifier::type_invariant]
    pub closed spec fn wf(self) -> bool {
        quoted(self.loc)
    }

    pub closed spec fn spec_loc(self) -> Loc {
        self.loc
    }

    /// The span and the content of the key.
    pub open spec fn key_view(self) -> JsonKey {
        JsonKey {
            start: self.spec_loc().start as int,
            len: self.spec_loc().len as int,
            content: quoted_content(self.spec_loc()),
        }
    }

    /// A located string over the quoted literal at `loc`.
    pub fn new(loc: Loc) -> (r: Self)
        requires
            quoted(loc),
        ensures
            r.spec_loc() == loc,
    {
        LocatedString { loc }
    }

    pub fn as_loc(&self) -> (r: &Loc)
        ensures
            *r == self.spec_loc(),
    {
        &self.loc
    }

    pub fn to_loc(self) -> (r: Loc)
        ensures
            r == self.spec_loc(),
    {
        self.loc
    }

    /// The text between the quotes, escape sequences left as written.
    pub fn as_str(&self) -> (r: &str)
        ensures
            utf8_bytes(r@) == quoted_content(self.spec_loc()),
    {
        proof {
            use_type_invariant(self);
        }
        quoted_slice(&self.loc)
    }

    /// The text between the quotes, as an owned string.
    pub fn to_string(&self) -> (r: String)
        ensures
            utf8_bytes(r@) == quoted_content(self.spec_loc()),
    {
        self.as_str().to_string()
    }
}

/// The source text strictly inside a quoted span.
fn quoted_slice(loc: &Loc) -> (r: &str)
    requires
        quoted(*loc),
    ensures
        utf8_bytes(r@) == quoted_content(*loc),
{
    let ghost b = loc.bytes();
    proof {
        lemma_utf8_bytes_valid(loc.src@);
        lemma_boundary_around_ascii(b, loc.end_pos() - 1);
    }
    let s: &str = loc.src.as_str();
    let _total = s.as_bytes().len();
    let end = loc.start + (loc.len - 1);
    let (left, _right) = s.split_at(end);
    proof {
        vstd::utf8::valid_utf8_split(b, end as int);
        let l = b.subrange(0, end as int);
        assert(l[loc.start as int] == QUOTE);
        lemma_boundary_around_ascii(l, loc.start as int);
    }
    let (_head, mid) = left.split_at(loc.start + 1);
    proof {
        assert(utf8_bytes(mid@) =~= quoted_content(*loc));
    }
    mid
}

/// The source text of a span that starts and ends with ASCII bytes.
fn span_slice(loc: &Loc) -> (r: &str)
    requires
        ascii_delimited(*loc),
    ensures
        utf8_bytes(r@) == span_bytes(*loc),
{
    let ghost b = loc.bytes();
    proof {
        lemma_utf8_bytes_valid(loc.src@);
        lemma_boundary_around_ascii(b, loc.end_pos() - 1);
    }
    let s: &str = loc.src.as_str();
    let _total = s.as_bytes().len();
    let end = loc.start + loc.len;
    let (left, _right) = s.split_at(end);
    proof {
        vstd::utf8::valid_utf8_split(b, end as int);
        let l = b.subrange(0, end as int);
        assert(l[loc.start as int] == b[loc.start as int]);
        lemma_boundary_around_ascii(l, loc.start as int);
    }
    let (_head, mid) = left.split_at(loc.start);
    proof {
        assert(utf8_bytes(mid@) =~= span_bytes(*loc));
    }
    mid
}

/// The shape of a located value.
#[derive(Debug)]
pub enum ValueKind {
    Null,
    Bool(bool),
    Number,
    String,
    Array(Vec<LocatedValue>),
    Object(Vec<(LocatedString, LocatedValue)>),
}

/// A JSON value together with the span of the source it was read from.
#[derive(Debug)]
pub struct LocatedValue {
    kind: ValueKind,
    loc: Loc,
}

pub closed spec fn value_view(v: LocatedValue) -> JsonSpec
    decreases v,
{
    let k = match v.kind {
        ValueKind::Null => JsonKind::Null,
        ValueKind::Bool(b) => JsonKind::Bool(b),
        ValueKind::Number => JsonKind::Number(span_bytes(v.loc)),
        ValueKind::String => JsonKind::String(quoted_content(v.loc)),
        ValueKind::Array(items) => JsonKind::Array(values_view(items@)),
        ValueKind::Object(entries) => JsonKind::Object(entries_view(entries@)),
    };
    JsonSpec { kind: k, start: v.loc.start as int, len: v.loc.len as int }
}

pub closed spec fn values_view(s: Seq<LocatedValue>) -> Seq<JsonSpec>
    decreases s,
{
    if s.len() == 0 {
        Seq::empty()
    } else {
        values_view(s.drop_last()).push(value_view(s.last()))
    }
}

pub closed spec fn entries_view(s: Seq<(LocatedString, LocatedValue)>) -> Seq<(JsonKey, JsonSpec)>
    decreases s,
{
    if s.len() == 0 {
        Seq::empty()
    } else {
        entries_view(s.drop_last()).push((s.last().0.key_view(), value_view(s.last().1)))
    }
}

pub proof fn lemma_values_view(s: Seq<LocatedValue>)
    ensures
        values_view(s).len() == s.len(),
        forall|i: int| 0 <= i < s.len() ==> #[trigger] values_view(s)[i] == value_view(s[i]),
    decreases s.len(),
{
    if s.len() > 0 {
        lemma_values_view(s.drop_last());
    }
}

pub proof fn lemma_entries_view(s: Seq<(LocatedString, LocatedValue)>)
    ensures
        entries_view(s).len() == s.len(),
        forall|i: int|
            0 <= i < s.len() ==> #[trigger] entries_view(s)[i] == (
                s[i].0.key_view(),
                value_view(s[i].1),
            ),
    decreases s.len(),
{
    if s.len() > 0 {
        lemma_entries_view(s.drop_last());
    }
}

pub proof fn lemma_values_view_push(s: Seq<LocatedValue>, x: LocatedValue)
    ensures
        values_view(s.push(x)) == values_view(s).push(value_view(x)),
{
    assert(s.push(x).drop_last() =~= s);
}

pub proof fn lemma_entries_view_push(
    s: Seq<(LocatedString, LocatedValue)>,
    x: (LocatedString, LocatedValue),
)
    ensures
        entries_view(s.push(x)) == entries_view(s).push((x.0.key_view(), value_view(x.1))),
{
    assert(s.push(x).drop_last() =~= s);
}

impl View for LocatedValue {
    type V = JsonSpec;

    open spec fn view(&self) -> JsonSpec {
        value_view(*self)
    }
}

impl LocatedValue {
    #[verifier::type_invariant]
    pub closed spec fn wf(self) -> bool {
        &&& self.loc.in_bounds()
        &&& (self.kind is String ==> quoted(self.loc))
        &&& (self.kind is Number ==> ascii_delimited(self.loc))
    }

    pub closed spec fn spec_loc(self) -> Loc {
        self.loc
    }

    pub closed spec fn spec_kind(self) -> ValueKind {
        self.kind
    }

    pub proof fn lemma_view(&self)
        ensures
            self@.start == self.spec_loc().start,
            self@.len == self.spec_loc().len,
            self.spec_kind() is Array ==> self@.kind == JsonKind::Array(
                values_view(self.spec_kind()->Array_0@),
            ),
            self.spec_kind() is Object ==> self@.kind == JsonKind::Object(
                entries_view(self.spec_kind()->Object_0@),
            ),
    {
    }

    pub fn new_null(loc: Loc) -> (r: Self)
        requires
            loc.in_bounds(),
        ensures
            r@ == (JsonSpec { kind: JsonKind::Null, start: loc.start as int, len: loc.len as int }),
            r.spec_loc() == loc,
    {
        LocatedValue { kind: ValueKind::Null, loc }
    }

    pub fn new_bool(b: bool, loc: Loc) -> (r: Self)
        requires
            loc.in_bounds(),
        ensures
            r@ == (JsonSpec { kind: JsonKind::Bool(b), start: loc.start as int, len: loc.len as int }),
            r.spec_loc() == loc,
    {
        LocatedValue { kind: ValueKind::Bool(b), loc }
    }

    pub fn new_number(loc: Loc) -> (r: Self)
        requires
            ascii_delimited(loc),
        ensures
            r@ == (JsonSpec {
                kind: JsonKind::Number(span_bytes(loc)),
                start: loc.start as int,
                len: loc.len as int,
            }),
            r.spec_loc() == loc,
    {
        LocatedValue { kind: ValueKind::Number, loc }
    }

    pub fn new_string(loc: Loc) -> (r: Self)
        requires
            quoted(loc),
        ensures
            r@ == (JsonSpec {
                kind: JsonKind::String(quoted_content(loc)),
                start: loc.start as int,
                len: loc.len as int,
            }),
            r.spec_loc() == loc,
    {
        LocatedValue { kind: ValueKind::String, loc }
    }

    pub fn new_array(items: Vec<LocatedValue>, loc: Loc) -> (r: Self)
        requires
            loc.in_bounds(),
        ensures
            r@ == (JsonSpec {
                kind: JsonKind::Array(values_view(items@)),
                start: loc.start as int,
                len: loc.len as int,
            }),
            r.spec_loc() == loc,
    {
        LocatedValue { kind: ValueKind::Array(items), loc }
    }

    pub fn new_object(items: Vec<(LocatedString, LocatedValue)>, loc: Loc) -> (r: Self)
        requires
            loc.in_bounds(),
        ensures
            r@ == (JsonSpec {
                kind: JsonKind::Object(entries_view(items@)),
                start: loc.start as int,
                len: loc.len as int,
            }),
            r.spec_loc() == loc,
    {
        LocatedValue { kind: ValueKind::Object(items), loc }
    }

    pub fn as_loc(&self) -> (r: &Loc)
        ensures
            *r == self.spec_loc(),
    {
        &self.loc
    }

    pub fn to_loc(self) -> (r: Loc)
        ensures
            r == self.spec_loc(),
    {
        self.loc
    }

    pub fn is_null(&self) -> (r: bool)
        ensures
            r == (self@.kind is Null),
    {
        matches!(self.kind, ValueKind::Null)
    }

    pub fn is_bool(&self) -> (r: bool)
        ensures
            r == (self@.kind is Bool),
    {
        matches!(self.kind, ValueKind::Bool(_))
    }

    pub fn get_bool(&self) -> (r: Option<bool>)
        ensures
            r == (match self@.kind {
                JsonKind::Bool(b) => Some(b),
                _ => None,
            }),
    {
        match self.kind {
            ValueKind::Bool(b) => Some(b),
            _ => None,
        }
    }

    pub fn is_number(&self) -> (r: bool)
        ensures
            r == (self@.kind is Number),
    {
        matches!(self.kind, ValueKind::Number)
    }

    /// The text of the number literal, if this is a number.
    pub fn get_numeric_str(&self) -> (r: Option<&str>)
        ensures
            match self@.kind {
                JsonKind::Number(t) => r matches Some(s) && utf8_bytes(s@) == t,
                _ => r is None,
            },
    {
        proof {
            use_type_invariant(self);
        }
        match self.kind {
            ValueKind::Number => Some(span_slice(&self.loc)),
            _ => None,
        }
    }

    pub fn is_string(&self) -> (r: bool)
        ensures
            r == (self@.kind is String),
    {
        matches!(self.kind, ValueKind::String)
    }

    /// The text between the quotes, if this is a string.
    pub fn get_str(&self) -> (r: Option<&str>)
        ensures
            match self@.kind {
                JsonKind::String(t) => r matches Some(s) && utf8_bytes(s@) == t,
                _ => r is None,
            },
    {
        proof {
            use_type_invariant(self);
        }
        match self.kind {
            ValueKind::String => Some(quoted_slice(&self.loc)),
            _ => None,
        }
    }

    /// The text between the quotes as an owned string, if this is a string.
    pub fn get_string(&self) -> (r: Option<String>)
        ensures
            match self@.kind {
                JsonKind::String(t) => r matches Some(s) && utf8_bytes(s@) == t,
                _ => r is None,
            },
    {
        match self.get_str() {
            Some(s) => Some(s.to_string()),
            None => None,
        }
    }

    pub fn is_array(&self) -> (r: bool)
        ensures
            r == (self@.kind is Array),
    {
        matches!(self.kind, ValueKind::Array(_))
    }

    pub fn get_array(&self) -> (r: Option<&Vec<LocatedValue>>)
        ensures
            match self@.kind {
                JsonKind::Array(items) => r matches Some(v) && values_view(v@) == items,
                _ => r is None,
            },
    {
        match &self.kind {
            ValueKind::Array(items) => Some(items),
            _ => None,
        }
    }

    pub fn is_object(&self) -> (r: bool)
        ensures
            r == (self@.kind is Object),
    {
        matches!(self.kind, ValueKind::Object(_))
    }

    pub fn get_object(&self) -> (r: Option<&Vec<(LocatedString, LocatedValue)>>)
        ensures
            match self@.kind {
                JsonKind::Object(entries) => r matches Some(v) && entries_view(v@) == entries,
                _ => r is None,
            },
    {
        match &self.kind {
            ValueKind::Object(entries) => Some(entries),
            _ => None,
        }
    }

    /// The value stored under `key`, if this is an object holding that key.
    pub fn get(&self, key: &str) -> (r: Option<&LocatedValue>)
        ensures
            match json_get(self@, utf8_bytes(key@)) {
                Some(v) => r matches Some(rv) && rv@ == v,
                None => r is None,
            },
    {
        match &self.kind {
            ValueKind::Object(entries) => {
                let k = key.as_bytes();
                let ghost es = entries_view(entries@);
                proof {
                    lemma_entries_view(entries@);
                    lemma_lookup_entry(es, k@);
                    assert(self@.kind == JsonKind::Object(es));
                }
                let mut i: usize = 0;
                while i < entries.len()
                    invariant
                        0 <= i <= entries@.len(),
                        es == entries_view(entries@),
                        self@.kind == JsonKind::Object(es),
                        es.len() == entries@.len(),
                        k@ == utf8_bytes(key@),
                        forall|j: int| 0 <= j < i ==> #[trigger] es[j].0.content != k@,
                        forall|j: int|
                            0 <= j < entries@.len() ==> #[trigger] es[j] == (
                                entries@[j].0.key_view(),
                                value_view(entries@[j].1),
                            ),
                        lookup_entry(es, k@) matches Some(x) ==> 0 <= x < es.len()
                            && es[x].0.content == k@ && forall|j: int|
                            0 <= j < x ==> #[trigger] es[j].0.content != k@,
                        lookup_entry(es, k@) is None ==> forall|j: int|
                            0 <= j < es.len() ==> #[trigger] es[j].0.content != k@,
                    decreases entries@.len() - i,
                {
                    if key_has_content(&entries[i].0, k) {
                        assert(es[i as int].0.content == k@);
                        assert(lookup_entry(es, k@) == Some(i as int));
                        return Some(&entries[i].1);
                    }
                    i = i + 1;
                }
                None
            },
            _ => None,
        }
    }
}

/// Whether the content of the key `k` is the byte string `s`.
pub fn key_has_content(k: &LocatedString, s: &[u8]) -> (r: bool)
    ensures
        r == (k.key_view().content == s@),
{
    let content = k.as_str().as_bytes();
    let n = content.len();
    if n != s.len() {
        return false;
    }
    let mut i: usize = 0;
    while i < n
        invariant
            n == content@.len(),
            n == s@.len(),
            content@ == k.key_view().content,
            0 <= i <= n,
            forall|j: int| 0 <= j < i ==> content@[j] == s@[j],
        decreases n - i,
    {
        if content[i] != s[i] {
            return false;
        }
        i = i + 1;
    }
    assert(content@ =~= s@);
    true
}

/// A value found under a key of an object is smaller than the object.
pub proof fn lemma_get_decreases(v: JsonSpec, content: Seq<u8>)
    ensures
        json_get(v, content) matches Some(c) ==> decreases_to!(v => c),
{
    if let JsonKind::Object(entries) = v.kind {
        lemma_lookup_entry(entries, content);
        if let Some(i) = lookup_entry(entries, content) {
            assert(decreases_to!(v => v.kind));
            assert(decreases_to!(v.kind => entries));
            assert(decreases_to!(entries => entries[i]));
            assert(decreases_to!(entries[i] => entries[i].1));
        }
    }
}

/// Whether two texts have the same UTF-8 bytes.
pub fn same_text(a: &str, b: &str) -> (r: bool)
    ensures
        r == (utf8_bytes(a@) == utf8_bytes(b@)),
{
    let x = a.as_bytes();
    let y = b.as_bytes();
    let n = x.len();
    if n != y.len() {
        return false;
    }
    let mut i: usize = 0;
    while i < n
        invariant
            n == x@.len(),
            n == y@.len(),
            x@ == utf8_bytes(a@),
            y@ == utf8_bytes(b@),
            0 <= i <= n,
            forall|j: int| 0 <= j < i ==> x@[j] == y@[j],
        decreases n - i,
    {
        if x[i] != y[i] {
            return false;
        }
        i = i + 1;
    }
    assert(x@ =~= y@);
    true
}

} // verus!
