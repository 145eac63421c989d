//! Source spans used to attach byte and line/column locations to compiler data.

use vstd::prelude::*;

verus! {

/// A region of source text: byte offsets plus the line and column where it starts.
#[derive(Debug, Clone, Copy, PartialEq, Eq)]
pub struct Span {
    /// Byte offset where the span starts.
    pub start: usize,
    /// Byte offset where the span ends.
    pub end: usize,
    /// One-based source line where the span starts.
    pub line: usize,
    /// One-based source column where the span starts.
    pub column: usize,
}

/// The smaller of two offsets.
pub open spec fn min_offset(a: usize, b: usize) -> usize {
    if a <= b { a } else { b }
}

/// The larger of two offsets.
pub open spec fn max_offset(a: usize, b: usize) -> usize {
    if a >= b { a } else { b }
}

/// The span that `merge` produces: it covers both spans and keeps the position of `first`.
pub open spec fn merged(first: Span, second: Span) -> Span {
    Span {
        start: min_offset(first.start, second.start),
        end: max_offset(first.end, second.end),
        line: first.line,
        column: first.column,
    }
}

impl Span {
    /// Creates a new source span from byte offsets and a starting line and column.
    pub fn new(start: usize, end: usize, line: usize, column: usize) -> (span: Span)
        ensures
            span == (Span { start, end, line, column }),
    {
        Span { start, end, line, column }
    }

    /// Returns a span covering both this span and another span.
    ///
    /// The merged span uses the smallest start offset and the largest end offset.
    /// It keeps the line and column position of `self`.
    pub fn merge(self, other: Span) -> (span: Span)
        ensures
            span == merged(self, other),
    {
        Span {
            start: if self.start <= other.start { self.start } else { other.start },
            end: if self.end >= other.end { self.end } else { other.end },
            line: self.line,
            column: self.column,
        }
    }
}

/// Merging covers both operands: the merged span starts no later and ends no
/// earlier than either span, and merging is associative.
pub proof fn lemma_merge_covers(a: Span, b: Span, c: Span)
    ensures
        merged(a, b).start <= a.start,
        merged(a, b).start <= b.start,
        merged(a, b).end >= a.end,
        merged(a, b).end >= b.end,
        merged(merged(a, b), c) == merged(a, merged(b, c)),
        merged(a, a) == a,
{
}

} // verus!
