use vstd::prelude::*;

verus! {

/// A half-open byte range `[start, end)` in a source text.
#[derive(Clone, Copy, PartialEq, Eq, Structural, Debug)]
pub struct Span {
    pub start: usize,
    pub end: usize,
}

/// The smallest span that covers both `a` and `b`.
pub open spec fn spec_join(a: Span, b: Span) -> Span {
    Span {
        start: if a.start <= b.start { a.start } else { b.start },
        end: if a.end >= b.end { a.end } else { b.end },
    }
}

impl Span {
    pub fn new(start: usize, end: usize) -> (span: Span)
        ensures
            span.start == start,
            span.end == end,
    {
        Span { start, end }
    }

    /// Covers both spans: the lower start and the higher end.
    pub fn join(self, other: Span) -> (span: Span)
        ensures
            span == spec_join(self, other),
    {
        let start = if self.start <= other.start { self.start } else { other.start };
        let end = if self.end >= other.end { self.end } else { other.end };
        Span { start, end }
    }
}

/// Joining spans covers both of them and does not depend on their order.
pub proof fn law_join_covers_both(a: Span, b: Span)
    ensures
        spec_join(a, b) == spec_join(b, a),
        spec_join(a, b).start <= a.start && spec_join(a, b).start <= b.start,
        spec_join(a, b).end >= a.end && spec_join(a, b).end >= b.end,
        spec_join(a, b).start == a.start || spec_join(a, b).start == b.start,
        spec_join(a, b).end == a.end || spec_join(a, b).end == b.end,
{
}

} // verus!
