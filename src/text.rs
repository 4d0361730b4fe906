//! Positions and spans in source files.
use vstd::prelude::*;

verus! {

/// Identity of one file of the indexed workspace.
#[derive(Clone, Copy, Debug, PartialEq, Eq, Structural)]
pub struct FileId(pub u32);

/// A half-open span `start..end` of byte offsets.
#[derive(Clone, Copy, Debug, PartialEq, Eq, Structural)]
pub struct TextRange {
    pub start: u32,
    pub end: u32,
}

/// A span inside a given file.
#[derive(Clone, Copy, Debug, PartialEq, Eq, Structural)]
pub struct FileRange {
    pub file_id: FileId,
    pub range: TextRange,
}

/// A cursor position inside a given file.
#[derive(Clone, Copy, Debug, PartialEq, Eq, Structural)]
pub struct FilePosition {
    pub file_id: FileId,
    pub offset: u32,
}

impl TextRange {
    /// The start does not lie past the end.
    pub open spec fn wf(self) -> bool {
        self.start <= self.end
    }

    /// Length of the span in bytes.
    pub open spec fn spec_len(self) -> int {
        self.end - self.start
    }

    /// The offset touches the span: it lies inside it or on one of its ends.
    pub open spec fn touches(self, offset: u32) -> bool {
        self.start <= offset && offset <= self.end
    }

    /// `other` lies within this span.
    pub open spec fn covers(self, other: TextRange) -> bool {
        self.start <= other.start && other.end <= self.end
    }

    pub fn new(start: u32, end: u32) -> (r: TextRange)
        requires
            start <= end,
        ensures
            r.start == start,
            r.end == end,
    {
        TextRange { start, end }
    }

    pub fn len(&self) -> (r: u32)
        requires
            self.wf(),
        ensures
            r == self.spec_len(),
    {
        self.end - self.start
    }

    pub fn contains_offset(&self, offset: u32) -> (r: bool)
        ensures
            r == self.touches(offset),
    {
        self.start <= offset && offset <= self.end
    }

    pub fn contains_range(&self, other: &TextRange) -> (r: bool)
        ensures
            r == self.covers(*other),
    {
        self.start <= other.start && other.end <= self.end
    }
}

} // verus!
