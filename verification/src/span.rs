//! Source spans: a start offset and a length.

use vstd::prelude::*;

verus! {

/// A region of source text: `len` bytes from offset `start`.
#[derive(Debug, Clone, Copy, PartialEq, Eq, Structural)]
pub struct Span {
    pub start: usize,
    pub len: usize,
}

impl Span {
    /// The offset just past the span.
    pub fn end(&self) -> (r: usize)
        requires
            self.start + self.len <= usize::MAX,
        ensures
            r == self.start + self.len,
    {
        self.start + self.len
    }

    /// The smallest span covering both spans.
    pub fn join(&self, other: Span) -> (r: Span)
        requires
            self.start + self.len <= usize::MAX,
            other.start + other.len <= usize::MAX,
        ensures
            r.start == if self.start <= other.start { self.start } else { other.start },
            r.start + r.len == if self.start + self.len >= other.start + other.len {
                self.start + self.len
            } else {
                other.start + other.len
            },
    {
        let start = if self.start <= other.start { self.start } else { other.start };
        let a = self.start + self.len;
        let b = other.start + other.len;
        let end = if a >= b { a } else { b };
        Span { start, len: end - start }
    }
}

} // verus!
