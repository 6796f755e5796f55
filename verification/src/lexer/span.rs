use std::ops::Range;
use vstd::prelude::*;

verus! {

/// The half-open range of byte positions that a token covers in its line.
#[derive(Debug, PartialEq)]
pub struct Span {
    pub range: Range<usize>,
}

impl Span {
    /// The span that covers `range`.
    pub fn new(range: Range<usize>) -> (span: Self)
        ensures
            span.range == range,
    {
        Self { range }
    }

    /// First byte of the span.
    pub open spec fn start(&self) -> int {
        self.range.start as int
    }

    /// One past the last byte of the span.
    pub open spec fn end(&self) -> int {
        self.range.end as int
    }
}

impl Clone for Span {
    fn clone(&self) -> (span: Self)
        ensures
            span == *self,
    {
        Self { range: self.range.start..self.range.end }
    }
}

} // verus!
