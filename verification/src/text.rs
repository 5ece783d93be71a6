//! Text ranges: half-open intervals of byte offsets into the source text.

use vstd::prelude::*;

verus! {

/// A half-open interval `[start, end)` of byte offsets into the original
/// source text. Invariant: `start <= end`.
#[derive(Clone, Copy, PartialEq, Eq, Structural, Debug)]
pub struct TextRange {
    pub start: usize,
    pub end: usize,
}

impl TextRange {
    /// The range is a proper interval: `start <= end`.
    pub open spec fn wf(self) -> bool {
        self.start <= self.end
    }

    pub open spec fn spec_len(self) -> int {
        self.end - self.start
    }

    /// Half-open containment: `start <= offset < end`.
    pub open spec fn spec_contains(self, offset: int) -> bool {
        self.start <= offset < self.end
    }

    /// Closed containment: the offset may also sit on either boundary.
    pub open spec fn touches(self, offset: int) -> bool {
        self.start <= offset <= self.end
    }

    /// `self` lies entirely before `other`; they may share a boundary.
    pub open spec fn before(self, other: TextRange) -> bool {
        self.end <= other.start
    }

    pub fn new(start: usize, end: usize) -> (r: TextRange)
        requires
            start <= end,
        ensures
            r == (TextRange { start, end }),
    {
        TextRange { start, end }
    }

    pub fn len(&self) -> (r: usize)
        requires
            self.wf(),
        ensures
            r == self.spec_len(),
    {
        self.end - self.start
    }

    pub fn contains(&self, offset: usize) -> (r: bool)
        ensures
            r == self.spec_contains(offset as int),
    {
        self.start <= offset && offset < self.end
    }
}

} // verus!
