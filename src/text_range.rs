//! Half-open byte ranges into a document.
use vstd::prelude::*;

verus! {

/// A half-open range `[start, end)` of byte offsets.
#[derive(Clone, Copy, Debug, PartialEq, Eq, Structural)]
pub struct TextRange {
    pub start: usize,
    pub end: usize,
}

impl TextRange {
    /// The range `[start, end)`.
    pub fn new(start: usize, end: usize) -> (r: TextRange)
        requires
            start <= end,
        ensures
            r.start == start,
            r.end == end,
    {
        TextRange { start, end }
    }

    /// The range of `len` bytes starting at `start`.
    pub fn at(start: usize, len: usize) -> (r: TextRange)
        requires
            start + len <= usize::MAX,
        ensures
            r.start == start,
            r.end == start + len,
    {
        TextRange { start, end: start + len }
    }
}

} // verus!
