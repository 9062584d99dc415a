//! Source locations: a span of bytes within a shared source text.

use std::sync::Arc;
use vstd::prelude::*;

verus! {

/// The UTF-8 bytes of a character sequence.
pub open spec fn utf8_bytes(s: Seq<char>) -> Seq<u8> {
    vstd::utf8::encode_utf8(s)
}

/// A span `[start, start + len)` of the bytes of a shared source text.
#[derive(Debug)]
pub struct Loc {
    pub src: Arc<String>,
    pub start: usize,
    pub len: usize,
}

impl Loc {
    /// The bytes of the source text this location points into.
    pub open spec fn bytes(&self) -> Seq<u8> {
        utf8_bytes(self.src@)
    }

    /// The exclusive end of the span.
    pub open spec fn end_pos(&self) -> int {
        self.start + self.len
    }

    /// The span lies within the source text.
    pub open spec fn in_bounds(&self) -> bool {
        self.end_pos() <= self.bytes().len()
    }

    /// Create a location covering `span = (start, len)` of `src`.
    pub fn new(span: (usize, usize), src: Arc<String>) -> (r: Loc)
        ensures
            r.start == span.0,
            r.len == span.1,
            r.src == src,
    {
        Loc { src, start: span.0, len: span.1 }
    }

    /// The first byte of the span.
    pub fn start(&self) -> (r: usize)
        ensures
            r == self.start,
    {
        self.start
    }

    /// The byte just past the span.
    pub fn end(&self) -> (r: usize)
        requires
            self.start + self.len <= usize::MAX,
        ensures
            r == self.start + self.len,
    {
        self.start + self.len
    }

    /// A new location over the same source text covering `span = (start, len)`.
    pub fn span(&self, span: (usize, usize)) -> (r: Loc)
        ensures
            r.start == span.0,
            r.len == span.1,
            r.src == self.src,
    {
        Loc { src: self.src.clone(), start: span.0, len: span.1 }
    }
}

impl Clone for Loc {
    fn clone(&self) -> (r: Self)
        ensures
            r == *self,
    {
        Loc { src: self.src.clone(), start: self.start, len: self.len }
    }
}

/// In valid UTF-8, the positions just before and just after an ASCII byte
/// are character boundaries.
pub proof fn lemma_boundary_around_ascii(b: Seq<u8>, i: int)
    requires
        vstd::utf8::valid_utf8(b),
        0 <= i < b.len(),
        b[i] < 128,
    ensures
        vstd::utf8::is_char_boundary(b, i),
        vstd::utf8::is_char_boundary(b, i + 1),
{
    vstd::utf8::is_char_boundary_iff_is_leading_byte(b, i);
    if i + 1 == b.len() {
        vstd::utf8::is_char_boundary_start_end_of_seq(b);
    } else {
        vstd::utf8::valid_utf8_split(b, i);
        let t = b.subrange(i, b.len() as int);
        assert(t[0] == b[i]);
        let u = vstd::utf8::pop_first_scalar(t);
        assert(vstd::utf8::length_of_first_scalar(t) == 1);
        assert(u =~= b.subrange(i + 1, b.len() as int));
        assert(vstd::utf8::valid_utf8(u));
        assert(u[0] == b[i + 1]);
        assert(!vstd::utf8::is_continuation_byte(u[0]));
        vstd::utf8::is_char_boundary_iff_not_is_continuation_byte(b, i + 1);
    }
}

/// The bytes of a character sequence form valid UTF-8.
pub proof fn lemma_utf8_bytes_valid(s: Seq<char>)
    ensures
        vstd::utf8::valid_utf8(utf8_bytes(s)),
{
    vstd::utf8::encode_utf8_valid_utf8(s);
}

} // verus!
