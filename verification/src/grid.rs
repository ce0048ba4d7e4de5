//! The shared character grid and its single mutation path.
//!
//! Every drawn element — orbit rings, the Sun, planet markers — lands on the
//! grid through [`Grid::put_pixel`], which resolves overlapping writes by
//! priority: an empty cell takes any write, an occupied cell is replaced only
//! by a strictly greater priority, so among equal priorities the first writer
//! wins.

use vstd::prelude::*;

verus! {

/// A terminal color for one drawn cell; the closed set the body catalog uses.
#[derive(Clone, Copy, PartialEq, Eq, Structural, Debug)]
pub enum Color {
    Yellow,
    LightMagenta,
    LightYellow,
    LightBlue,
    Red,
    LightRed,
    Cyan,
    Blue,
    DarkGray,
}

/// One grid cell's drawn content: a glyph, a color, and the priority that
/// resolves draw-order conflicts when two elements map to the same cell.
#[derive(Clone, Copy, PartialEq, Eq, Structural, Debug)]
pub struct Pixel {
    pub ch: char,
    pub color: Color,
    pub priority: u8,
}

/// What one write leaves in a cell: an empty cell takes the pixel
/// unconditionally; an occupied cell is overwritten only by a strictly
/// greater priority, so equal or lower priority is discarded.
pub open spec fn composite(cur: Option<Pixel>, p: Pixel) -> Option<Pixel> {
    match cur {
        None => Some(p),
        Some(e) => if p.priority > e.priority {
            Some(p)
        } else {
            Some(e)
        },
    }
}

/// The occupant of one cell after a whole sequence of writes to it, starting
/// from an empty cell.
pub open spec fn final_occupant(ps: Seq<Pixel>) -> Option<Pixel>
    decreases ps.len(),
{
    if ps.len() == 0 {
        None
    } else {
        composite(final_occupant(ps.drop_last()), ps.last())
    }
}

/// After any sequence of writes to one cell, the final occupant is a
/// maximum-priority pixel among them, and among the maximum-priority writes
/// the earliest one wins. The returned index names that winning write.
pub proof fn lemma_final_occupant_is_earliest_max(ps: Seq<Pixel>) -> (i: int)
    requires
        ps.len() > 0,
    ensures
        0 <= i < ps.len(),
        final_occupant(ps) == Some(ps[i]),
        forall|j: int| 0 <= j < ps.len() ==> #[trigger] ps[j].priority <= ps[i].priority,
        forall|j: int| 0 <= j < i ==> #[trigger] ps[j].priority < ps[i].priority,
    decreases ps.len(),
{
    let prefix = ps.drop_last();
    let last = ps.last();
    assert(forall|j: int| 0 <= j < prefix.len() ==> #[trigger] prefix[j] == ps[j]);
    assert(last == ps[ps.len() - 1]);
    if ps.len() == 1 {
        assert(final_occupant(prefix) is None);
        assert(final_occupant(ps) == Some(ps[0]));
        0
    } else {
        let k = lemma_final_occupant_is_earliest_max(prefix);
        assert(prefix[k] == ps[k]);
        if last.priority > ps[k].priority {
            let i = ps.len() - 1;
            assert(final_occupant(ps) == Some(ps[i]));
            assert forall|j: int| 0 <= j < ps.len() implies #[trigger] ps[j].priority
                <= ps[i].priority by {
                if j < i {
                    assert(ps[j] == prefix[j]);
                    assert(prefix[j].priority <= prefix[k].priority);
                }
            }
            assert forall|j: int| 0 <= j < i implies #[trigger] ps[j].priority
                < ps[i].priority by {
                assert(ps[j] == prefix[j]);
                assert(prefix[j].priority <= prefix[k].priority);
            }
            i
        } else {
            assert(composite(final_occupant(prefix), last) == Some(prefix[k]));
            assert(final_occupant(ps) == Some(ps[k]));
            assert forall|j: int| 0 <= j < ps.len() implies #[trigger] ps[j].priority
                <= ps[k].priority by {
                if j < prefix.len() {
                    assert(prefix[j].priority <= prefix[k].priority);
                } else {
                    assert(ps[j] == last);
                }
            }
            assert forall|j: int| 0 <= j < k implies #[trigger] ps[j].priority
                < ps[k].priority by {
                assert(prefix[j].priority < prefix[k].priority);
            }
            k
        }
    }
}

/// A 2-D grid of optional pixels, stored row-major; rebuilt fresh each frame.
pub struct Grid {
    pub w: usize,
    pub h: usize,
    pub cells: Vec<Option<Pixel>>,
}

impl Grid {
    /// Dimensions at least 1x1, bounded by what a terminal panel can report,
    /// and exactly one stored cell per coordinate.
    pub open spec fn wf(self) -> bool {
        &&& 1 <= self.w <= 0xFFFF
        &&& 1 <= self.h <= 0xFFFF
        &&& self.cells@.len() == self.w * self.h
    }

    pub open spec fn in_bounds(self, x: int, y: int) -> bool {
        0 <= x < self.w && 0 <= y < self.h
    }

    pub open spec fn cell(self, x: int, y: int) -> Option<Pixel>
        recommends
            self.wf(),
            self.in_bounds(x, y),
    {
        self.cells@[y * self.w + x]
    }

    pub fn new(w: usize, h: usize) -> (g: Grid)
        requires
            1 <= w <= 0xFFFF,
            1 <= h <= 0xFFFF,
        ensures
            g.wf(),
            g.w == w,
            g.h == h,
            forall|x: int, y: int| g.in_bounds(x, y) ==> g.cell(x, y) is None,
    {
        proof {
            lemma_dims_fit(w as int, h as int);
        }
        let n = w * h;
        let mut cells: Vec<Option<Pixel>> = Vec::new();
        let mut i: usize = 0;
        while i < n
            invariant
                i <= n,
                n == w * h,
                cells@.len() == i,
                forall|j: int| 0 <= j < i ==> cells@[j] is None,
            decreases n - i,
        {
            cells.push(None);
            i = i + 1;
        }
        let g = Grid { w, h, cells };
        assert forall|x: int, y: int| g.in_bounds(x, y) implies g.cell(x, y) is None by {
            lemma_row_major_in_range(w as int, h as int, x, y);
        }
        g
    }

    /// Read one cell.
    pub fn cell_at(&self, x: usize, y: usize) -> (c: Option<Pixel>)
        requires
            self.wf(),
            self.in_bounds(x as int, y as int),
        ensures
            c == self.cell(x as int, y as int),
    {
        proof {
            lemma_row_major_in_range(self.w as int, self.h as int, x as int, y as int);
        }
        self.cells[y * self.w + x]
    }

    /// The single point of truth for resolving overlapping writes: a write
    /// outside the grid is a no-op, a write to an empty cell lands, and a
    /// write to an occupied cell lands only with strictly greater priority.
    pub fn put_pixel(&mut self, x: i64, y: i64, p: Pixel)
        requires
            old(self).wf(),
        ensures
            final(self).wf(),
            final(self).w == old(self).w,
            final(self).h == old(self).h,
            forall|xx: int, yy: int|
                old(self).in_bounds(xx, yy) ==> final(self).cell(xx, yy) == (
                    if xx == x && yy == y {
                        composite(old(self).cell(xx, yy), p)
                    } else {
                        old(self).cell(xx, yy)
                    }),
            !old(self).in_bounds(x as int, y as int) ==> final(self).cells@ == old(self).cells@,
    {
        if x < 0 || y < 0 {
            return ;
        }
        if x >= self.w as i64 || y >= self.h as i64 {
            return ;
        }
        let xu = x as usize;
        let yu = y as usize;
        proof {
            lemma_row_major_in_range(self.w as int, self.h as int, xu as int, yu as int);
        }
        let idx = yu * self.w + xu;
        let write = match self.cells[idx] {
            None => true,
            Some(e) => p.priority > e.priority,
        };
        if write {
            self.cells.set(idx, Some(p));
        }
        proof {
            let w = self.w as int;
            assert forall|xx: int, yy: int|
                old(self).in_bounds(xx, yy) implies self.cell(xx, yy) == (
                if xx == x && yy == y {
                    composite(old(self).cell(xx, yy), p)
                } else {
                    old(self).cell(xx, yy)
                }) by {
                lemma_row_major_in_range(w, self.h as int, xx, yy);
                if yy * w + xx == idx {
                    lemma_row_major_injective(w, xx, yy, xu as int, yu as int);
                }
            }
        }
    }
}

/// Grid dimensions bounded by a terminal panel's range give an in-range cell
/// count.
proof fn lemma_dims_fit(w: int, h: int)
    requires
        1 <= w <= 0xFFFF,
        1 <= h <= 0xFFFF,
    ensures
        w * h <= 0xFFFF * 0xFFFF,
{
    assert(w * h <= 0xFFFF * 0xFFFF) by (nonlinear_arith)
        requires
            1 <= w <= 0xFFFF,
            1 <= h <= 0xFFFF,
    ;
}

/// A row-major index of an in-bounds coordinate is a valid index.
proof fn lemma_row_major_in_range(w: int, h: int, x: int, y: int)
    requires
        1 <= w <= 0xFFFF,
        1 <= h <= 0xFFFF,
        0 <= x < w,
        0 <= y < h,
    ensures
        0 <= y * w + x < w * h,
        w * h <= 0xFFFF * 0xFFFF,
{
    lemma_dims_fit(w, h);
    assert(0 <= y * w + x < w * h) by (nonlinear_arith)
        requires
            1 <= w,
            1 <= h,
            0 <= x < w,
            0 <= y < h,
    ;
}

/// Distinct in-bounds coordinates get distinct row-major indices.
proof fn lemma_row_major_injective(w: int, x1: int, y1: int, x2: int, y2: int)
    requires
        1 <= w,
        0 <= x1 < w,
        0 <= x2 < w,
        y1 * w + x1 == y2 * w + x2,
    ensures
        x1 == x2,
        y1 == y2,
{
    assert(x1 == x2 && y1 == y2) by (nonlinear_arith)
        requires
            1 <= w,
            0 <= x1 < w,
            0 <= x2 < w,
            y1 * w + x1 == y2 * w + x2,
    ;
}

} // verus!
