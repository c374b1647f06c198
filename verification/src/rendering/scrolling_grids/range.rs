//! Half-open row ranges `[start, end)` of the grids that take part in a scroll.
use vstd::prelude::*;

verus! {

#[derive(Debug, Default, Clone, Copy, PartialEq, Eq)]
pub struct Range {
    pub start: i32,
    pub end: i32,
}

/// True when the row `x` lies in `r`.
pub open spec fn in_range(r: Range, x: int) -> bool {
    r.start <= x < r.end
}

/// True when no row lies in both ranges.
pub open spec fn ranges_disjoint(a: Range, b: Range) -> bool {
    forall|x: int| !(#[trigger] in_range(a, x) && in_range(b, x))
}

/// What is left of `r` once `c` is laid over it: `r` itself where `c` does not overlap it, the
/// part of `r` before `c` where `r` starts first, the part after `c` where `r` reaches past its
/// end, and `None` where `c` covers all of `r`.
pub open spec fn cover_spec(r: Range, c: Range) -> Option<Range> {
    if r.start < c.start {
        if r.end <= c.start {
            Some(r)
        } else {
            Some(Range { start: r.start, end: c.start })
        }
    } else if r.start < c.end || r.start == c.start {
        if r.end <= c.end {
            None
        } else {
            Some(Range { start: c.end, end: r.end })
        }
    } else {
        Some(r)
    }
}

impl Range {
    pub fn new(start: i32, end: i32) -> (r: Range)
        requires
            end >= start,
        ensures
            r == (Range { start, end }),
    {
        Range { start, end }
    }

    /// The range from 0 to `end`.
    pub fn until(end: i32) -> (r: Range)
        requires
            end >= 0,
        ensures
            r == (Range { start: 0, end }),
    {
        Range::new(0, end)
    }

    /// The smallest range that spans both.
    pub fn union(self, other: Range) -> (r: Range)
        ensures
            r.start == if self.start <= other.start { self.start } else { other.start },
            r.end == if self.end >= other.end { self.end } else { other.end },
    {
        Range {
            start: if self.start <= other.start { self.start } else { other.start },
            end: if self.end >= other.end { self.end } else { other.end },
        }
    }

    /// What is left of `self` once `cover` is laid over it.
    pub fn cover(self, cover: Range) -> (r: Option<Range>)
        ensures
            r == cover_spec(self, cover),
    {
        if self.start < cover.start {
            if self.end < cover.start {
                Some(self)
            } else if self.end == cover.start {
                Some(self)
            } else {
                Some(Range::new(self.start, cover.start))
            }
        } else if self.start == cover.start {
            if self.end < cover.end {
                None
            } else if self.end == cover.end {
                None
            } else {
                Some(Range::new(cover.end, self.end))
            }
        } else {
            if self.start < cover.end {
                if self.end < cover.end {
                    None
                } else if self.end == cover.end {
                    None
                } else {
                    Some(Range::new(cover.end, self.end))
                }
            } else if self.start == cover.end {
                Some(self)
            } else {
                Some(self)
            }
        }
    }
}

impl core::ops::Add<i32> for Range {
    type Output = Range;

    fn add(self, rhs: i32) -> (r: Range) {
        Range::new(self.start + rhs, self.end + rhs)
    }
}

impl vstd::std_specs::ops::AddSpecImpl<i32> for Range {
    open spec fn obeys_add_spec() -> bool {
        true
    }

    open spec fn add_req(self, rhs: i32) -> bool {
        &&& self.start <= self.end
        &&& i32::MIN <= self.start + rhs <= i32::MAX
        &&& i32::MIN <= self.end + rhs <= i32::MAX
    }

    open spec fn add_spec(self, rhs: i32) -> Range {
        Range { start: (self.start + rhs) as i32, end: (self.end + rhs) as i32 }
    }
}

impl core::ops::Sub<i32> for Range {
    type Output = Range;

    fn sub(self, rhs: i32) -> (r: Range) {
        Range::new(self.start - rhs, self.end - rhs)
    }
}

impl vstd::std_specs::ops::SubSpecImpl<i32> for Range {
    open spec fn obeys_sub_spec() -> bool {
        true
    }

    open spec fn sub_req(self, rhs: i32) -> bool {
        &&& self.start <= self.end
        &&& i32::MIN <= self.start - rhs <= i32::MAX
        &&& i32::MIN <= self.end - rhs <= i32::MAX
    }

    open spec fn sub_spec(self, rhs: i32) -> Range {
        Range { start: (self.start - rhs) as i32, end: (self.end - rhs) as i32 }
    }
}

/// What `cover` leaves of a range lies inside it and shares no row with the cover; it leaves
/// nothing only where the cover holds every row of the range; where a non-empty cover shares
/// no row with the range, the range is left whole.
pub proof fn cover_leaves_uncovered_part(r: Range, c: Range)
    requires
        r.start <= r.end,
        c.start <= c.end,
    ensures
        cover_spec(r, c) matches Some(u) ==> {
            &&& u.start <= u.end
            &&& forall|x: int| #[trigger] in_range(u, x) ==> in_range(r, x)
            &&& ranges_disjoint(u, c)
        },
        cover_spec(r, c) is None ==> forall|x: int| #[trigger] in_range(r, x) ==> in_range(c, x),
        ranges_disjoint(r, c) && r.start < r.end && c.start < c.end ==> cover_spec(r, c) == Some(r),
{
    if ranges_disjoint(r, c) && r.start < r.end && c.start < c.end {
        if c.start <= r.start < c.end {
            assert(in_range(r, r.start as int) && in_range(c, r.start as int));
        }
        if r.start < c.start < r.end {
            assert(in_range(r, c.start as int) && in_range(c, c.start as int));
        }
    }
}

/// The union spans every row of both ranges.
pub proof fn union_spans_both(a: Range, b: Range, x: int)
    requires
        in_range(a, x) || in_range(b, x),
    ensures
        ({
            let u = Range {
                start: if a.start <= b.start { a.start } else { b.start },
                end: if a.end >= b.end { a.end } else { b.end },
            };
            in_range(u, x)
        }),
{
}

} // verus!
