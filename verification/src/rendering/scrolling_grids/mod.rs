//! The grids that take part in a scroll animation: the newest first, each with the rows of
//! it that newer grids do not cover.
pub mod range;

use self::range::{cover_spec, Range};
use crate::ui::grid::{cell_text, overflow_refs_valid, CellContents, GridContents};
use crate::util::vec2::Vec2;
use std::collections::VecDeque;
use vstd::prelude::*;

verus! {

/// A grid of a scroll, `offset` rows down from where the newest grid is, of which the rows
/// `[start, end)` are shown.
pub struct GridPart {
    pub grid: GridContents,
    pub offset: i32,
    pub start: usize,
    pub end: usize,
}

impl GridPart {
    /// The whole grid, in place.
    pub fn new(grid: GridContents) -> (r: GridPart)
        requires
            grid.size.y <= usize::MAX,
        ensures
            r.grid == grid,
            r.offset == 0,
            r.start == 0,
            r.end == grid.size.y,
    {
        let end = grid.size.y as usize;
        GridPart { offset: 0, start: 0, end, grid }
    }

    /// No row of the grid is shown.
    pub fn is_empty(&self) -> (r: bool)
        ensures
            r == (self.start == self.end),
    {
        self.start == self.end
    }
}

/// The smallest range that spans both.
pub open spec fn union_spec(a: Range, b: Range) -> Range {
    Range {
        start: if a.start <= b.start { a.start } else { b.start },
        end: if a.end >= b.end { a.end } else { b.end },
    }
}

/// The scroll of `offset` rows, no more than the height `h` of the new grid either way; a
/// scroll of 0 stays 0.
pub open spec fn clamped(offset: int, h: int) -> int {
    if offset > 0 {
        if offset <= h { offset } else { h }
    } else {
        if -offset <= h { offset } else { -h }
    }
}

/// The rows a part takes once it moved by `offset`.
pub open spec fn moved_range(p: GridPart, offset: int) -> Range {
    Range { start: (p.offset - offset) as i32, end: (p.offset - offset + p.grid.size.y) as i32 }
}

/// The parts after a scroll by `offset` rows, `cover` being the rows that newer grids take:
/// each part moves, keeps the rows that the grids before it do not cover, and stays where
/// some row is left and it is as tall as the new grid (`height`).
pub open spec fn kept_parts(parts: Seq<GridPart>, offset: int, cover: Range, height: u64) -> Seq<GridPart>
    decreases parts.len(),
{
    if parts.len() == 0 {
        Seq::empty()
    } else {
        let p = parts[0];
        let r = moved_range(p, offset);
        let rest = kept_parts(parts.drop_first(), offset, union_spec(cover, r), height);
        match cover_spec(r, cover) {
            Some(u) => if p.grid.size.y == height {
                seq![
                    GridPart {
                        grid: p.grid,
                        offset: r.start,
                        start: (u.start - r.start) as usize,
                        end: (u.end - r.start) as usize,
                    },
                ] + rest
            } else {
                rest
            },
            None => rest,
        }
    }
}

/// A part can move by `offset` rows without leaving the `i32` rows.
pub open spec fn part_fits(p: GridPart, offset: int) -> bool {
    &&& p.grid.size.y <= i32::MAX
    &&& i32::MIN <= p.offset - offset
    &&& p.offset - offset + p.grid.size.y <= i32::MAX
}

/// The grids of a scroll animation, the newest first.
pub struct ScrollParts {
    pub parts: VecDeque<GridPart>,
}

impl ScrollParts {
    /// One grid, shown whole.
    pub fn new(grid: GridContents) -> (r: ScrollParts)
        requires
            grid.size.y <= usize::MAX,
        ensures
            r.parts@.len() == 1,
            r.parts@[0].grid == grid,
            r.parts@[0].offset == 0,
            r.parts@[0].start == 0,
            r.parts@[0].end == grid.size.y,
    {
        let mut parts = VecDeque::new();
        parts.push_back(GridPart::new(grid));
        ScrollParts { parts }
    }

    /// Ends the animation: only the newest grid is left.
    pub fn finish_scroll(&mut self)
        requires
            old(self).parts@.len() >= 1,
        ensures
            final(self).parts@ == old(self).parts@.take(1),
    {
        self.parts.truncate(1);
    }

    /// Puts a grid in place of the newest one, shown whole.
    pub fn replace(&mut self, grid: GridContents)
        requires
            old(self).parts@.len() >= 1,
            grid.size.y <= usize::MAX,
        ensures
            final(self).parts@.len() == old(self).parts@.len(),
            final(self).parts@.skip(1) == old(self).parts@.skip(1),
            final(self).parts@[0].grid == grid,
            final(self).parts@[0].offset == 0,
            final(self).parts@[0].start == 0,
            final(self).parts@[0].end == grid.size.y,
    {
        let ghost before = self.parts@;
        let _ = self.parts.pop_front();
        self.parts.push_front(GridPart::new(grid));
        proof {
            assert(self.parts@.skip(1) =~= before.skip(1));
        }
    }

    /// The size of the oldest grid.
    pub fn size(&self) -> (r: Vec2<u64>)
        requires
            self.parts@.len() >= 1,
        ensures
            r == self.parts@.last().grid.size,
    {
        self.parts[self.parts.len() - 1].grid.size
    }

    /// Scrolls by `offset` rows (at most the height of the new grid either way) to the new
    /// grid: the older grids move away by that, each keeps the rows not covered by the grids
    /// before it, those left with no row or of another height go, and the new grid goes
    /// first. It returns the rows scrolled.
    pub fn push(&mut self, grid: GridContents, offset: i32) -> (r: i32)
        requires
            grid.size.y <= i32::MAX,
            offset > i32::MIN,
            forall|i: int|
                0 <= i < old(self).parts@.len() ==> #[trigger] part_fits(
                    old(self).parts@[i],
                    clamped(offset as int, grid.size.y as int),
                ),
        ensures
            r == clamped(offset as int, grid.size.y as int),
            final(self).parts@.len() >= 1,
            final(self).parts@[0].grid == grid,
            final(self).parts@[0].offset == 0,
            final(self).parts@[0].start == 0,
            final(self).parts@[0].end == grid.size.y,
            final(self).parts@.skip(1) == kept_parts(
                old(self).parts@,
                r as int,
                Range { start: 0, end: grid.size.y as i32 },
                grid.size.y,
            ),
    {
        let ghost requested = offset;
        let h = grid.size.y as i32;
        let abs = if offset < 0 { -offset } else { offset };
        let mag = if abs <= h { abs } else { h };
        let offset = if offset > 0 { mag } else { -mag };
        assert(offset == clamped(requested as int, grid.size.y as int));
        let mut coverage = Range::until(h);
        let mut rest: VecDeque<GridPart> = VecDeque::new();
        std::mem::swap(&mut rest, &mut self.parts);
        let ghost orig = rest@;
        let ghost cover0 = coverage;
        let mut kept: VecDeque<GridPart> = VecDeque::new();
        while rest.len() > 0
            invariant
                forall|i: int| 0 <= i < rest@.len() ==> #[trigger] part_fits(rest@[i], offset as int),
                coverage.start <= coverage.end,
                kept@ + kept_parts(rest@, offset as int, coverage, grid.size.y) == kept_parts(
                    orig,
                    offset as int,
                    cover0,
                    grid.size.y,
                ),
            decreases rest@.len(),
        {
            let ghost before = rest@;
            let mut part = rest.pop_front().unwrap();
            proof {
                assert(rest@ == before.drop_first());
                assert(part_fits(before[0], offset as int));
                assert forall|i: int| 0 <= i < rest@.len() implies #[trigger] part_fits(rest@[i], offset as int) by {
                    assert(rest@[i] == before[i + 1]);
                }
            }
            let moved = part.offset - offset;
            let grid_range = Range::until(part.grid.size.y as i32) + moved;
            let uncovered = grid_range.cover(coverage);
            let ghost old_cover = coverage;
            coverage = coverage.union(grid_range);
            match uncovered {
                Some(u) => {
                    if part.grid.size.y == grid.size.y {
                        let kept_range = u - moved;
                        part.offset = moved;
                        part.start = kept_range.start as usize;
                        part.end = kept_range.end as usize;
                        let ghost k0 = kept@;
                        kept.push_back(part);
                        proof {
                            assert(kept@ + kept_parts(rest@, offset as int, coverage, grid.size.y)
                                == k0 + kept_parts(before, offset as int, old_cover, grid.size.y));
                        }
                    } else {
                        proof {
                            assert(kept@ + kept_parts(rest@, offset as int, coverage, grid.size.y)
                                == kept@ + kept_parts(before, offset as int, old_cover, grid.size.y));
                        }
                    }
                },
                None => {
                    proof {
                        assert(kept@ + kept_parts(rest@, offset as int, coverage, grid.size.y)
                            == kept@ + kept_parts(before, offset as int, old_cover, grid.size.y));
                    }
                },
            }
        }
        proof {
            assert(kept@ + Seq::<GridPart>::empty() == kept@);
        }
        kept.push_front(GridPart::new(grid));
        self.parts = kept;
        proof {
            assert(self.parts@.skip(1) == kept_parts(orig, offset as int, cover0, grid.size.y));
        }
        offset
    }
}

/// After a scroll, every older grid that stays shows rows of it only, and at least one
/// where it has any rows.
pub proof fn kept_parts_show_their_rows(parts: Seq<GridPart>, offset: int, cover: Range, height: u64)
    requires
        cover.start <= cover.end,
        forall|i: int| 0 <= i < parts.len() ==> #[trigger] part_fits(parts[i], offset),
    ensures
        forall|i: int|
            0 <= i < kept_parts(parts, offset, cover, height).len() ==> {
                let p = #[trigger] kept_parts(parts, offset, cover, height)[i];
                &&& p.start <= p.end <= p.grid.size.y
                &&& p.grid.size.y > 0 ==> p.start < p.end
            },
    decreases parts.len(),
{
    if parts.len() > 0 {
        let p = parts[0];
        let r = moved_range(p, offset);
        assert(part_fits(parts[0], offset));
        assert forall|i: int| 0 <= i < parts.drop_first().len() implies #[trigger] part_fits(
            parts.drop_first()[i],
            offset,
        ) by {
            assert(part_fits(parts[i + 1], offset));
        }
        let c2 = union_spec(cover, r);
        kept_parts_show_their_rows(parts.drop_first(), offset, c2, height);
        let rest = kept_parts(parts.drop_first(), offset, c2, height);
        let all = kept_parts(parts, offset, cover, height);
        match cover_spec(r, cover) {
            Some(u) => {
                if p.grid.size.y == height {
                    assert(r.start <= u.start <= u.end <= r.end);
                    assert(r.start < r.end ==> u.start < u.end);
                    assert forall|i: int| 0 <= i < all.len() implies {
                        let q = #[trigger] all[i];
                        &&& q.start <= q.end <= q.grid.size.y
                        &&& q.grid.size.y > 0 ==> q.start < q.end
                    } by {
                        if i > 0 {
                            assert(all[i] == rest[i - 1]);
                        }
                    }
                } else {
                    assert(all == rest);
                }
            },
            None => {
                assert(all == rest);
            },
        }
    }
}

/// The rows a part shows, each with the part: `(part, y)` for `y` in `[start, end)`.
pub open spec fn part_rows(p: GridPart) -> Seq<(GridPart, int)> {
    Seq::new((p.end - p.start) as nat, |j: int| (p, p.start + j))
}

/// The rows the parts show, the oldest part first.
pub open spec fn shown_rows(parts: Seq<GridPart>) -> Seq<(GridPart, int)>
    decreases parts.len(),
{
    if parts.len() == 0 {
        Seq::empty()
    } else {
        shown_rows(parts.drop_first()) + part_rows(parts[0])
    }
}

/// A part whose rows can be read: its grid is consistent and at least one column wide, and
/// its rows lie in the grid and are numbered within `i32`.
pub open spec fn part_readable(p: GridPart) -> bool {
    &&& p.grid.wf()
    &&& 0 < p.grid.size.x <= usize::MAX
    &&& overflow_refs_valid(p.grid.buffer@, p.grid.overflow@)
    &&& p.start <= p.end <= p.grid.size.y
    &&& p.grid.size.y <= i32::MAX
    &&& p.offset + p.end <= i32::MAX
    &&& p.offset >= 0 || p.offset + p.start >= i32::MIN
}

proof fn lemma_rows_of_grid(w: int, h: int)
    requires
        w > 0,
        h >= 0,
    ensures
        (w * h + w - 1) / w == h,
{
    assert((w * h + w - 1) / w == h) by (nonlinear_arith)
        requires
            w > 0,
            h >= 0,
    ;
}

impl ScrollParts {
    /// The rows shown during the scroll, the oldest grid first: the rows `[start, end)` of
    /// each part, numbered from the top of the newest grid.
    pub fn rows(&self) -> (r: Vec<(i32, Vec<CellContents>)>)
        requires
            forall|i: int| 0 <= i < self.parts@.len() ==> #[trigger] part_readable(self.parts@[i]),
        ensures
            r@.len() == shown_rows(self.parts@).len(),
            forall|k: int|
                0 <= k < r@.len() ==> {
                    let (p, y) = #[trigger] shown_rows(self.parts@)[k];
                    &&& r@[k].0 == p.offset + y
                    &&& r@[k].1@.len() == p.grid.size.x
                    &&& forall|j: int|
                        0 <= j < p.grid.size.x ==> {
                            &&& (#[trigger] r@[k].1@[j]).highlight == p.grid.cell(j, y).highlight
                            &&& r@[k].1@[j].text.chars() == cell_text(
                                p.grid.overflow@,
                                p.grid.cell(j, y),
                            )
                        }
                },
    {
        let mut out: Vec<(i32, Vec<CellContents>)> = Vec::new();
        let mut i = self.parts.len();
        while i > 0
            invariant
                i <= self.parts@.len(),
                forall|m: int| 0 <= m < self.parts@.len() ==> #[trigger] part_readable(self.parts@[m]),
                out@.len() == shown_rows(self.parts@.skip(i as int)).len(),
                forall|k: int|
                    0 <= k < out@.len() ==> {
                        let (p, y) = #[trigger] shown_rows(self.parts@.skip(i as int))[k];
                        &&& out@[k].0 == p.offset + y
                        &&& out@[k].1@.len() == p.grid.size.x
                        &&& forall|j: int|
                            0 <= j < p.grid.size.x ==> {
                                &&& (#[trigger] out@[k].1@[j]).highlight == p.grid.cell(j, y).highlight
                                &&& out@[k].1@[j].text.chars() == cell_text(
                                    p.grid.overflow@,
                                    p.grid.cell(j, y),
                                )
                            }
                    },
            decreases i,
        {
            i -= 1;
            let part = &self.parts[i];
            assert(part_readable(self.parts@[i as int]));
            proof {
                lemma_rows_of_grid(part.grid.size.x as int, part.grid.size.y as int);
                assert(self.parts@.skip(i as int).drop_first() == self.parts@.skip(i + 1));
            }
            let mut grid_rows = part.grid.rows();
            let ghost base = out@;
            let ghost all_rows = grid_rows@;
            let mut y = part.start;
            while y < part.end
                invariant
                    part_readable(*part),
                    part.start <= y <= part.end,
                    grid_rows@.len() == all_rows.len(),
                    all_rows.len() == part.grid.size.y,
                    forall|m: int| y <= m < all_rows.len() ==> #[trigger] grid_rows@[m] == all_rows[m],
                    out@.len() == base.len() + (y - part.start),
                    forall|k: int| 0 <= k < base.len() ==> #[trigger] out@[k] == base[k],
                    forall|k: int|
                        base.len() <= k < out@.len() ==> {
                            let yy = part.start + (k - base.len());
                            &&& (#[trigger] out@[k]).0 == part.offset + yy
                            &&& out@[k].1@ == all_rows[yy]@
                        },
                decreases part.end - y,
            {
                let mut row: Vec<CellContents> = Vec::new();
                let ghost taken = grid_rows@[y as int];
                std::mem::swap(&mut row, &mut grid_rows[y]);
                assert(row == taken);
                let number = part.offset + y as i32;
                let ghost before = out@;
                out.push((number, row));
                proof {
                    assert(out@ == before.push((number, taken)));
                }
                y += 1;
            }
            proof {
                let w = part.grid.size.x as int;
                let h = part.grid.size.y as int;
                let s = shown_rows(self.parts@.skip(i as int));
                assert(s == shown_rows(self.parts@.skip(i + 1)) + part_rows(*part));
                assert forall|k: int| 0 <= k < out@.len() implies {
                    let (p, yy) = #[trigger] s[k];
                    &&& out@[k].0 == p.offset + yy
                    &&& out@[k].1@.len() == p.grid.size.x
                    &&& forall|j: int|
                        0 <= j < p.grid.size.x ==> {
                            &&& (#[trigger] out@[k].1@[j]).highlight == p.grid.cell(j, yy).highlight
                            &&& out@[k].1@[j].text.chars() == cell_text(
                                p.grid.overflow@,
                                p.grid.cell(j, yy),
                            )
                        }
                } by {
                    if k >= base.len() {
                        let yy = part.start + (k - base.len());
                        assert(s[k] == (*part, yy));
                        assert(yy * w < w * h) by (nonlinear_arith)
                            requires
                                0 <= yy < h,
                                w > 0,
                        ;
                        assert((yy + 1) * w <= w * h) by (nonlinear_arith)
                            requires
                                0 <= yy < h,
                                w > 0,
                        ;
                    }
                }
            }
        }
        proof {
            assert(self.parts@.skip(0) == self.parts@);
        }
        out
    }
}

} // verus!
