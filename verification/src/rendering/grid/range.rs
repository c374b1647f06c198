//! Half-open row ranges `[start, end)` of a grid.
use vstd::prelude::*;

verus! {

#[derive(Debug, Default, Clone, Copy, PartialEq, Eq)]
pub struct Range {
    pub start: i64,
    pub end: i64,
}

/// True when the row `x` lies in `r`.
pub open spec fn in_range(r: Range, x: int) -> bool {
    r.start <= x < r.end
}

/// True when no row lies in both ranges.
pub open spec fn ranges_disjoint(a: Range, b: Range) -> bool {
    forall|x: int| !(#[trigger] in_range(a, x) && in_range(b, x))
}

/// What is left of `r` once `c` is laid over it: `r` itself where `c` does not overlap it, the
/// part of `r` before `c` where `r` starts first, the part after `c` where `r` reaches past
/// its end, and otherwise the empty range at `r.start`.
pub open spec fn cover_spec(r: Range, c: Range) -> Range {
    if r.start < c.start {
        if r.end <= c.start {
            r
        } else {
            Range { start: r.start, end: c.start }
        }
    } else if r.start < c.end || r.start == c.start {
        if r.end <= c.end {
            Range { start: r.start, end: r.start }
        } else {
            Range { start: c.end, end: r.end }
        }
    } else {
        r
    }
}

impl Range {
    pub fn new(start: i64, end: i64) -> (r: Range)
        requires
            end >= start,
        ensures
            r == (Range { start, end }),
    {
        Range { start, end }
    }

    /// The range from 0 to `end`.
    pub fn until(end: i64) -> (r: Range)
        requires
            end >= 0,
        ensures
            r == (Range { start: 0, end }),
    {
        Range::new(0, end)
    }

    /// The number of rows, `end - start`, as a `usize` (wrapped where `end < start`).
    pub fn len(&self) -> (r: usize)
        requires
            i64::MIN <= self.end - self.start <= i64::MAX,
        ensures
            r == (self.end - self.start) as usize,
    {
        (self.end - self.start) as usize
    }

    /// The smallest range that spans both.
    pub fn union(self, other: Range) -> (r: Range)
        ensures
            r.start == if self.start <= other.start { self.start } else { other.start },
            r.end == if self.end >= other.end { self.end } else { other.end },
    {
        Range {
            start: if self.start <= other.start { self.start } else { other.start },
            end: if self.end >= other.end { self.end } else { other.end },
        }
    }

    /// The empty range at `start`.
    pub fn covered(self) -> (r: Range)
        ensures
            r == (Range { start: self.start, end: self.start }),
    {
        Range::new(self.start, self.start)
    }

    /// What is left of `self` once `cover` is laid over it.
    pub fn cover(self, cover: Range) -> (r: Range)
        ensures
            r == cover_spec(self, cover),
    {
        if self.start < cover.start {
            if self.end < cover.start {
                self
            } else if self.end == cover.start {
                self
            } else {
                Range::new(self.start, cover.start)
            }
        } else if self.start == cover.start {
            if self.end < cover.end {
                self.covered()
            } else if self.end == cover.end {
                self.covered()
            } else {
                Range::new(cover.end, self.end)
            }
        } else {
            if self.start < cover.end {
                if self.end < cover.end {
                    self.covered()
                } else if self.end == cover.end {
                    self.covered()
                } else {
                    Range::new(cover.end, self.end)
                }
            } else if self.start == cover.end {
                self
            } else {
                self
            }
        }
    }
}

impl core::ops::Add<i64> for Range {
    type Output = Range;

    fn add(self, rhs: i64) -> (r: Range) {
        Range::new(self.start + rhs, self.end + rhs)
    }
}

impl vstd::std_specs::ops::AddSpecImpl<i64> for Range {
    open spec fn obeys_add_spec() -> bool {
        true
    }

    open spec fn add_req(self, rhs: i64) -> bool {
        &&& self.start <= self.end
        &&& i64::MIN <= self.start + rhs <= i64::MAX
        &&& i64::MIN <= self.end + rhs <= i64::MAX
    }

    open spec fn add_spec(self, rhs: i64) -> Range {
        Range { start: (self.start + rhs) as i64, end: (self.end + rhs) as i64 }
    }
}

impl core::ops::Sub<i64> for Range {
    type Output = Range;

    fn sub(self, rhs: i64) -> (r: Range) {
        Range::new(self.start - rhs, self.end - rhs)
    }
}

impl vstd::std_specs::ops::SubSpecImpl<i64> for Range {
    open spec fn obeys_sub_spec() -> bool {
        true
    }

    open spec fn sub_req(self, rhs: i64) -> bool {
        &&& self.start <= self.end
        &&& i64::MIN <= self.start - rhs <= i64::MAX
        &&& i64::MIN <= self.end - rhs <= i64::MAX
    }

    open spec fn sub_spec(self, rhs: i64) -> Range {
        Range { start: (self.start - rhs) as i64, end: (self.end - rhs) as i64 }
    }
}

/// What `cover` leaves of a range lies inside it and shares no row with the cover; where a
/// non-empty cover shares no row with the range, the range is left whole.
pub proof fn cover_leaves_uncovered_part(r: Range, c: Range)
    requires
        r.start <= r.end,
        c.start <= c.end,
    ensures
        cover_spec(r, c).start <= cover_spec(r, c).end,
        forall|x: int| #[trigger] in_range(cover_spec(r, c), x) ==> in_range(r, x),
        ranges_disjoint(cover_spec(r, c), c),
        ranges_disjoint(r, c) && r.start < r.end && c.start < c.end ==> cover_spec(r, c) == r,
{
    if ranges_disjoint(r, c) && r.start < r.end && c.start < c.end {
        if c.start < c.end && c.start <= r.start < c.end {
            assert(in_range(r, r.start as int) && in_range(c, r.start as int));
        }
        if c.start < c.end && r.start < c.start < r.end {
            assert(in_range(r, c.start as int) && in_range(c, c.start as int));
        }
    }
}

/// The union spans every row of both ranges.
pub proof fn union_spans_both(a: Range, b: Range, x: int)
    requires
        in_range(a, x) || in_range(b, x),
    ensures
        ({
            let u = Range {
                start: if a.start <= b.start { a.start } else { b.start },
                end: if a.end >= b.end { a.end } else { b.end },
            };
            in_range(u, x)
        }),
{
}

} // verus!
