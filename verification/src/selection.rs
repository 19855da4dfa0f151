use vstd::prelude::*;

use crate::grid::{cell_index, lemma_cell_index_bounds, lemma_cell_index_injective, lemma_cell_of_index};

verus! {

/// An axis-aligned rectangle of cells.
#[derive(Copy, Clone, Debug, PartialEq, Eq, Structural)]
pub struct CellRect {
    pub x: u32,
    pub y: u32,
    pub w: u32,
    pub h: u32,
}

pub open spec fn min_int(a: int, b: int) -> int {
    if a <= b {
        a
    } else {
        b
    }
}

pub open spec fn max_int(a: int, b: int) -> int {
    if a >= b {
        a
    } else {
        b
    }
}

/// `a - b`, or zero when `b > a`.
pub open spec fn saturating_sub_spec(a: int, b: int) -> int {
    if a >= b {
        a - b
    } else {
        0
    }
}

/// The rectangle spanned by two corner cells, both included.
pub open spec fn from_corners_spec(ax: u32, ay: u32, bx: u32, by: u32) -> CellRect {
    CellRect {
        x: min_int(ax as int, bx as int) as u32,
        y: min_int(ay as int, by as int) as u32,
        w: (max_int(ax as int, bx as int) - min_int(ax as int, bx as int) + 1) as u32,
        h: (max_int(ay as int, by as int) - min_int(ay as int, by as int) + 1) as u32,
    }
}

/// The rectangle spanned by two corner cells covers exactly the cells that
/// lie between the corners in both directions, both corners included, and
/// it is the same whichever corner is given first.
pub proof fn lemma_from_corners_covers(ax: u32, ay: u32, bx: u32, by: u32, x: int, y: int)
    requires
        max_int(ax as int, bx as int) - min_int(ax as int, bx as int) < u32::MAX,
        max_int(ay as int, by as int) - min_int(ay as int, by as int) < u32::MAX,
    ensures
        in_rect(from_corners_spec(ax, ay, bx, by), x, y) <==> ((ax <= x <= bx || bx <= x <= ax) && (
        ay <= y <= by || by <= y <= ay)),
        from_corners_spec(ax, ay, bx, by) == from_corners_spec(bx, by, ax, ay),
{
}

/// `r` pulled inside a `cw` x `ch` canvas: its corner is moved onto the last
/// row or column when it lies beyond it, and its size is cut at the edges.
pub open spec fn clamped_spec(r: CellRect, cw: u32, ch: u32) -> CellRect {
    let x = min_int(r.x as int, saturating_sub_spec(cw as int, 1));
    let y = min_int(r.y as int, saturating_sub_spec(ch as int, 1));
    CellRect {
        x: x as u32,
        y: y as u32,
        w: min_int(r.w as int, saturating_sub_spec(cw as int, x)) as u32,
        h: min_int(r.h as int, saturating_sub_spec(ch as int, y)) as u32,
    }
}

/// Does `r` cover cell `(x, y)`?
pub open spec fn in_rect(r: CellRect, x: int, y: int) -> bool {
    r.x <= x < r.x + r.w && r.y <= y < r.y + r.h
}

/// Does the ellipse inscribed in `b` cover cell `(x, y)`? The cell's center
/// is tested against the ellipse: with `dx = x - b.x`, `dy = y - b.y`, the
/// condition `((dx + 1/2 - w/2) / (w/2))^2 + ((dy + 1/2 - h/2) / (h/2))^2 <= 1`
/// is here multiplied out by `w^2 h^2`.
pub open spec fn in_oval(b: CellRect, x: int, y: int) -> bool {
    let ax = 2 * (x - b.x) + 1 - b.w;
    let ay = 2 * (y - b.y) + 1 - b.h;
    &&& in_rect(b, x, y)
    &&& ax * ax * (b.h * b.h) + ay * ay * (b.w * b.w) <= (b.w * b.w) * (b.h * b.h)
}

impl CellRect {
    /// The rectangle with corners `(ax, ay)` and `(bx, by)`, in either order.
    pub fn from_corners(ax: u32, ay: u32, bx: u32, by: u32) -> (r: CellRect)
        requires
            max_int(ax as int, bx as int) - min_int(ax as int, bx as int) < u32::MAX,
            max_int(ay as int, by as int) - min_int(ay as int, by as int) < u32::MAX,
        ensures
            r == from_corners_spec(ax, ay, bx, by),
            forall|x: int, y: int|
                #[trigger] in_rect(r, x, y) <==> ((ax <= x <= bx || bx <= x <= ax) && (ay <= y <= by
                    || by <= y <= ay)),
    {
        let x0 = if ax <= bx { ax } else { bx };
        let y0 = if ay <= by { ay } else { by };
        let x1 = if ax >= bx { ax } else { bx };
        let y1 = if ay >= by { ay } else { by };
        CellRect { x: x0, y: y0, w: x1 - x0 + 1, h: y1 - y0 + 1 }
    }

    /// This rectangle pulled inside a `cw` x `ch` canvas; see [`clamped_spec`].
    pub fn clamped(&self, cw: u32, ch: u32) -> (r: CellRect)
        ensures
            r == clamped_spec(*self, cw, ch),
            r.x + r.w <= max_int(cw as int, r.x as int),
            r.y + r.h <= max_int(ch as int, r.y as int),
            cw > 0 ==> r.x + r.w <= cw,
            ch > 0 ==> r.y + r.h <= ch,
    {
        let cw1 = cw.saturating_sub(1);
        let ch1 = ch.saturating_sub(1);
        let x = if self.x <= cw1 { self.x } else { cw1 };
        let y = if self.y <= ch1 { self.y } else { ch1 };
        let cwx = cw.saturating_sub(x);
        let chy = ch.saturating_sub(y);
        let w = if self.w <= cwx { self.w } else { cwx };
        let h = if self.h <= chy { self.h } else { chy };
        CellRect { x, y, w, h }
    }
}

/// A per-cell selection over a `w` x `h` canvas.
#[derive(Clone, Debug)]
pub struct SelectionMask {
    pub w: u32,
    pub h: u32,
    pub cells: Vec<bool>,
}

impl View for SelectionMask {
    type V = Seq<bool>;

    /// The selection flags, row by row.
    open spec fn view(&self) -> Seq<bool> {
        self.cells@
    }
}

impl SelectionMask {
    /// One flag per canvas cell.
    pub open spec fn wf(&self) -> bool {
        self@.len() == self.w * self.h
    }

    /// Is `(x, y)` a selected cell of the canvas?
    pub open spec fn has(&self, x: int, y: int) -> bool {
        0 <= x < self.w && 0 <= y < self.h && self@[cell_index(self.w as int, x, y)]
    }

    /// No cell is selected.
    pub open spec fn is_empty_spec(&self) -> bool {
        forall|x: int, y: int| !#[trigger] self.has(x, y)
    }

    /// An empty selection over a `w` x `h` canvas.
    pub fn new(w: u32, h: u32) -> (m: SelectionMask)
        requires
            w * h <= usize::MAX,
        ensures
            m.wf(),
            m.w == w,
            m.h == h,
            m.is_empty_spec(),
    {
        let n = (w as usize) * (h as usize);
        let mut cells: Vec<bool> = Vec::new();
        let mut i: usize = 0;
        while i < n
            invariant
                i <= n,
                n == w * h,
                cells@.len() == i,
                forall|j: int| 0 <= j < i ==> !cells@[j],
            decreases n - i,
        {
            cells.push(false);
            i = i + 1;
        }
        let m = SelectionMask { w, h, cells };
        assert forall|x: int, y: int| !#[trigger] m.has(x, y) by {
            if 0 <= x < w && 0 <= y < h {
                lemma_cell_index_bounds(w as int, h as int, x, y);
            }
        }
        m
    }

    fn idx(&self, x: u32, y: u32) -> (i: usize)
        requires
            self.wf(),
            x < self.w,
            y < self.h,
        ensures
            i == cell_index(self.w as int, x as int, y as int),
            i < self@.len(),
    {
        proof {
            lemma_cell_index_bounds(self.w as int, self.h as int, x as int, y as int);
            assert(self.cells@.len() == self.cells.len());
            assert(y * self.w <= y * self.w + x);
        }
        (y as usize) * (self.w as usize) + (x as usize)
    }

    /// Is `(x, y)` selected? Cells outside the canvas never are.
    pub fn contains(&self, x: u32, y: u32) -> (b: bool)
        requires
            self.wf(),
        ensures
            b == self.has(x as int, y as int),
    {
        if x >= self.w || y >= self.h {
            return false;
        }
        self.cells[self.idx(x, y)]
    }

    /// Selects or deselects `(x, y)`; cells outside the canvas are ignored.
    pub fn set(&mut self, x: u32, y: u32, v: bool)
        requires
            old(self).wf(),
        ensures
            final(self).wf(),
            final(self).w == old(self).w,
            final(self).h == old(self).h,
            forall|qx: int, qy: int|
                #[trigger] final(self).has(qx, qy) == if qx == x && qy == y && x < old(self).w && y
                    < old(self).h {
                    v
                } else {
                    old(self).has(qx, qy)
                },
    {
        if x >= self.w || y >= self.h {
            return;
        }
        let i = self.idx(x, y);
        self.cells.set(i, v);
        proof {
            assert forall|qx: int, qy: int|
                #[trigger] self.has(qx, qy) == if qx == x && qy == y {
                    v
                } else {
                    old(self).has(qx, qy)
                } by {
                if 0 <= qx < self.w && 0 <= qy < self.h {
                    lemma_cell_index_bounds(self.w as int, self.h as int, qx, qy);
                    if cell_index(self.w as int, qx, qy) == i {
                        lemma_cell_index_injective(self.w as int, qx, qy, x as int, y as int);
                    }
                }
            }
        }
    }

    /// Sets every cell of `r` to `v`; `r` must lie inside the canvas.
    fn set_rect(&mut self, r: CellRect, v: bool)
        requires
            old(self).wf(),
            r.x + r.w <= old(self).w,
            r.y + r.h <= old(self).h,
        ensures
            final(self).wf(),
            final(self).w == old(self).w,
            final(self).h == old(self).h,
            forall|qx: int, qy: int|
                #[trigger] final(self).has(qx, qy) == if in_rect(r, qx, qy) {
                    v
                } else {
                    old(self).has(qx, qy)
                },
    {
        let ghost start = *self;
        let mut y = r.y;
        while y < r.y + r.h
            invariant
                r.y <= y <= r.y + r.h,
                r.x + r.w <= start.w,
                r.y + r.h <= start.h,
                self.wf(),
                self.w == start.w,
                self.h == start.h,
                forall|qx: int, qy: int|
                    #[trigger] self.has(qx, qy) == if in_rect(r, qx, qy) && qy < y {
                        v
                    } else {
                        start.has(qx, qy)
                    },
            decreases r.y + r.h - y,
        {
            let mut x = r.x;
            while x < r.x + r.w
                invariant
                    r.y <= y < r.y + r.h,
                    r.x <= x <= r.x + r.w,
                    r.x + r.w <= start.w,
                    r.y + r.h <= start.h,
                    self.wf(),
                    self.w == start.w,
                    self.h == start.h,
                    forall|qx: int, qy: int|
                        #[trigger] self.has(qx, qy) == if in_rect(r, qx, qy) && (qy < y || (qy == y
                            && qx < x)) {
                            v
                        } else {
                            start.has(qx, qy)
                        },
                decreases r.x + r.w - x,
            {
                self.set(x, y, v);
                x = x + 1;
            }
            y = y + 1;
        }
    }

    /// Selects every cell of `rect`, after pulling it inside the canvas.
    pub fn add_rect(&mut self, rect: CellRect)
        requires
            old(self).wf(),
        ensures
            final(self).wf(),
            final(self).w == old(self).w,
            final(self).h == old(self).h,
            forall|qx: int, qy: int|
                #[trigger] final(self).has(qx, qy) == (old(self).has(qx, qy) || in_rect(
                    clamped_spec(rect, old(self).w, old(self).h),
                    qx,
                    qy,
                )),
    {
        let r = rect.clamped(self.w, self.h);
        if r.w == 0 || r.h == 0 {
            return;
        }
        self.set_rect(r, true);
    }

    /// Deselects every cell of `rect`, after pulling it inside the canvas.
    pub fn subtract_rect(&mut self, rect: CellRect)
        requires
            old(self).wf(),
        ensures
            final(self).wf(),
            final(self).w == old(self).w,
            final(self).h == old(self).h,
            forall|qx: int, qy: int|
                #[trigger] final(self).has(qx, qy) == (old(self).has(qx, qy) && !in_rect(
                    clamped_spec(rect, old(self).w, old(self).h),
                    qx,
                    qy,
                )),
    {
        let r = rect.clamped(self.w, self.h);
        if r.w == 0 || r.h == 0 {
            return;
        }
        self.set_rect(r, false);
    }

    /// A `w` x `h` selection of `rect` (pulled inside the canvas), or `None`
    /// when that selects nothing.
    pub fn from_rect(w: u32, h: u32, rect: CellRect) -> (m: Option<SelectionMask>)
        requires
            w * h <= usize::MAX,
        ensures
            match m {
                Some(m) => {
                    &&& m.wf()
                    &&& m.w == w
                    &&& m.h == h
                    &&& !m.is_empty_spec()
                    &&& forall|qx: int, qy: int|
                        #[trigger] m.has(qx, qy) == in_rect(clamped_spec(rect, w, h), qx, qy)
                },
                None => forall|qx: int, qy: int|
                    0 <= qx < w && 0 <= qy < h ==> !in_rect(clamped_spec(rect, w, h), qx, qy),
            },
    {
        let mut m = Self::new(w, h);
        m.add_rect(rect);
        if m.is_empty() {
            assert forall|qx: int, qy: int|
                0 <= qx < w && 0 <= qy < h implies !in_rect(clamped_spec(rect, w, h), qx, qy) by {
                assert(!m.has(qx, qy));
            }
            None
        } else {
            Some(m)
        }
    }

    /// Sets the cells listed in `cells`, all inside the canvas, to `v`.
    fn set_cells(&mut self, cells: &Vec<(u32, u32)>, v: bool)
        requires
            old(self).wf(),
            forall|k: int|
                0 <= k < cells@.len() ==> (#[trigger] cells@[k]).0 < old(self).w && cells@[k].1
                    < old(self).h,
        ensures
            final(self).wf(),
            final(self).w == old(self).w,
            final(self).h == old(self).h,
            forall|qx: int, qy: int|
                #[trigger] final(self).has(qx, qy) == if 0 <= qx <= u32::MAX && 0 <= qy <= u32::MAX
                    && cells@.contains((qx as u32, qy as u32)) {
                    v
                } else {
                    old(self).has(qx, qy)
                },
    {
        let ghost start = *self;
        let mut k: usize = 0;
        while k < cells.len()
            invariant
                k <= cells@.len(),
                forall|m: int|
                    0 <= m < cells@.len() ==> (#[trigger] cells@[m]).0 < start.w && cells@[m].1
                        < start.h,
                self.wf(),
                self.w == start.w,
                self.h == start.h,
                forall|qx: int, qy: int|
                    #[trigger] self.has(qx, qy) == if 0 <= qx <= u32::MAX && 0 <= qy <= u32::MAX
                        && exists|j: int| 0 <= j < k && #[trigger] cells@[j] == (qx as u32, qy as u32) {
                        v
                    } else {
                        start.has(qx, qy)
                    },
            decreases cells@.len() - k,
        {
            let (x, y) = cells[k];
            let ghost before = *self;
            self.set(x, y, v);
            proof {
                assert forall|qx: int, qy: int|
                    #[trigger] self.has(qx, qy) == if 0 <= qx <= u32::MAX && 0 <= qy <= u32::MAX
                        && exists|j: int| 0 <= j < k + 1 && #[trigger] cells@[j] == (qx as u32, qy as u32) {
                        v
                    } else {
                        start.has(qx, qy)
                    } by {
                    assert(before.has(qx, qy) == if 0 <= qx <= u32::MAX && 0 <= qy <= u32::MAX
                        && exists|j: int| 0 <= j < k && #[trigger] cells@[j] == (qx as u32, qy as u32) {
                        v
                    } else {
                        start.has(qx, qy)
                    });
                    if 0 <= qx <= u32::MAX && 0 <= qy <= u32::MAX {
                        let p = (qx as u32, qy as u32);
                        if qx == x && qy == y {
                            assert(cells@[k as int] == p);
                        } else {
                            if exists|j: int| 0 <= j < k + 1 && #[trigger] cells@[j] == p {
                                let j = choose|j: int| 0 <= j < k + 1 && #[trigger] cells@[j] == p;
                                assert(j < k);
                            }
                        }
                    }
                }
            }
            k = k + 1;
        }
    }

    /// A `w` x `h` selection of the ellipse inscribed in `bounds` (pulled
    /// inside the canvas), or `None` when that selects nothing.
    pub fn from_oval(w: u32, h: u32, bounds: CellRect) -> (m: Option<SelectionMask>)
        requires
            w * h <= usize::MAX,
        ensures
            match m {
                Some(m) => {
                    &&& m.wf()
                    &&& m.w == w
                    &&& m.h == h
                    &&& !m.is_empty_spec()
                    &&& forall|qx: int, qy: int|
                        #[trigger] m.has(qx, qy) == in_oval(clamped_spec(bounds, w, h), qx, qy)
                },
                None => forall|qx: int, qy: int|
                    0 <= qx < w && 0 <= qy < h ==> !in_oval(clamped_spec(bounds, w, h), qx, qy),
            },
    {
        let mut m = Self::new(w, h);
        m.add_oval(bounds);
        if m.is_empty() {
            assert forall|qx: int, qy: int|
                0 <= qx < w && 0 <= qy < h implies !in_oval(clamped_spec(bounds, w, h), qx, qy) by {
                assert(!m.has(qx, qy));
            }
            None
        } else {
            Some(m)
        }
    }

    /// Selects the cells of the ellipse inscribed in `bounds`, after pulling
    /// `bounds` inside the canvas.
    pub fn add_oval(&mut self, bounds: CellRect)
        requires
            old(self).wf(),
        ensures
            final(self).wf(),
            final(self).w == old(self).w,
            final(self).h == old(self).h,
            forall|qx: int, qy: int|
                #[trigger] final(self).has(qx, qy) == (old(self).has(qx, qy) || in_oval(
                    clamped_spec(bounds, old(self).w, old(self).h),
                    qx,
                    qy,
                )),
    {
        let r = bounds.clamped(self.w, self.h);
        if r.w == 0 || r.h == 0 {
            return;
        }
        let cells = oval_cells(r);
        self.set_cells(&cells, true);
    }

    /// Deselects the cells of the ellipse inscribed in `bounds`, after pulling
    /// `bounds` inside the canvas.
    pub fn subtract_oval(&mut self, bounds: CellRect)
        requires
            old(self).wf(),
        ensures
            final(self).wf(),
            final(self).w == old(self).w,
            final(self).h == old(self).h,
            forall|qx: int, qy: int|
                #[trigger] final(self).has(qx, qy) == (old(self).has(qx, qy) && !in_oval(
                    clamped_spec(bounds, old(self).w, old(self).h),
                    qx,
                    qy,
                )),
    {
        let r = bounds.clamped(self.w, self.h);
        if r.w == 0 || r.h == 0 {
            return;
        }
        let cells = oval_cells(r);
        self.set_cells(&cells, false);
    }

    /// Selects every cell.
    pub fn fill_all(&mut self)
        requires
            old(self).wf(),
        ensures
            final(self).wf(),
            final(self).w == old(self).w,
            final(self).h == old(self).h,
            forall|qx: int, qy: int|
                #[trigger] final(self).has(qx, qy) == (0 <= qx < old(self).w && 0 <= qy < old(self).h),
    {
        let mut i: usize = 0;
        while i < self.cells.len()
            invariant
                i <= self.cells@.len(),
                self@.len() == old(self)@.len(),
                self.w == old(self).w,
                self.h == old(self).h,
                forall|j: int| 0 <= j < i ==> self.cells@[j],
            decreases self.cells@.len() - i,
        {
            self.cells.set(i, true);
            i = i + 1;
        }
        proof {
            assert forall|qx: int, qy: int|
                #[trigger] self.has(qx, qy) == (0 <= qx < self.w && 0 <= qy < self.h) by {
                if 0 <= qx < self.w && 0 <= qy < self.h {
                    lemma_cell_index_bounds(self.w as int, self.h as int, qx, qy);
                }
            }
        }
    }

    /// Is nothing selected?
    pub fn is_empty(&self) -> (b: bool)
        requires
            self.wf(),
        ensures
            b == self.is_empty_spec(),
    {
        let mut i: usize = 0;
        while i < self.cells.len()
            invariant
                i <= self.cells@.len(),
                self.wf(),
                forall|j: int| 0 <= j < i ==> !self.cells@[j],
            decreases self.cells@.len() - i,
        {
            if self.cells[i] {
                proof {
                    lemma_positive_width(self.w as int, self.h as int);
                    lemma_cell_of_index(self.w as int, self.h as int, i as int);
                    assert(self.has(i as int % self.w as int, i as int / self.w as int));
                }
                return false;
            }
            i = i + 1;
        }
        proof {
            assert forall|x: int, y: int| !#[trigger] self.has(x, y) by {
                if 0 <= x < self.w && 0 <= y < self.h {
                    lemma_cell_index_bounds(self.w as int, self.h as int, x, y);
                }
            }
        }
        true
    }

    /// The selected cells among the first `n` positions, row by row.
    pub open spec fn selected_upto(&self, n: int) -> Seq<(u32, u32)>
        decreases n,
    {
        if n <= 0 {
            Seq::empty()
        } else {
            let prev = self.selected_upto(n - 1);
            if self@[n - 1] {
                prev.push((((n - 1) % (self.w as int)) as u32, ((n - 1) / (self.w as int)) as u32))
            } else {
                prev
            }
        }
    }

    /// All selected cells, row by row.
    pub open spec fn selected_cells(&self) -> Seq<(u32, u32)> {
        self.selected_upto(self@.len() as int)
    }

    /// The selected cells, row by row.
    pub fn iter_cells(&self) -> (cells: Vec<(u32, u32)>)
        requires
            self.wf(),
        ensures
            cells@ == self.selected_cells(),
            forall|k: int|
                0 <= k < cells@.len() ==> self.has(
                    (#[trigger] cells@[k]).0 as int,
                    cells@[k].1 as int,
                ),
            forall|x: int, y: int|
                #[trigger] self.has(x, y) ==> cells@.contains((x as u32, y as u32)),
            forall|i: int, j: int|
                0 <= i < j < cells@.len() ==> cell_index(
                    self.w as int,
                    (#[trigger] cells@[i]).0 as int,
                    cells@[i].1 as int,
                ) < cell_index(self.w as int, (#[trigger] cells@[j]).0 as int, cells@[j].1 as int),
    {
        let mut out: Vec<(u32, u32)> = Vec::new();
        let w = self.w;
        let mut i: usize = 0;
        while i < self.cells.len()
            invariant
                i <= self.cells@.len(),
                self.wf(),
                w == self.w,
                out@ == self.selected_upto(i as int),
                forall|k: int|
                    0 <= k < out@.len() ==> self.has((#[trigger] out@[k]).0 as int, out@[k].1 as int)
                        && cell_index(w as int, out@[k].0 as int, out@[k].1 as int) < i,
                forall|x: int, y: int|
                    #[trigger] self.has(x, y) && cell_index(w as int, x, y) < i ==> out@.contains(
                        (x as u32, y as u32),
                    ),
                forall|a: int, b: int|
                    0 <= a < b < out@.len() ==> cell_index(
                        w as int,
                        (#[trigger] out@[a]).0 as int,
                        out@[a].1 as int,
                    ) < cell_index(w as int, (#[trigger] out@[b]).0 as int, out@[b].1 as int),
            decreases self.cells@.len() - i,
        {
            proof {
                lemma_positive_width(w as int, self.h as int);
                lemma_cell_of_index(w as int, self.h as int, i as int);
            }
            if self.cells[i] {
                let x = (i % (w as usize)) as u32;
                let y = (i / (w as usize)) as u32;
                let ghost before = out@;
                out.push((x, y));
                proof {
                    assert(self.has(x as int, y as int));
                    assert forall|qx: int, qy: int|
                        #[trigger] self.has(qx, qy) && cell_index(w as int, qx, qy) < i + 1 implies out@.contains(
                            (qx as u32, qy as u32),
                        ) by {
                        if cell_index(w as int, qx, qy) < i {
                            let k = choose|k: int| 0 <= k < before.len() && before[k] == (qx as u32, qy as u32);
                            assert(out@[k] == before[k]);
                        } else {
                            lemma_cell_index_injective(w as int, qx, qy, x as int, y as int);
                            assert(out@[out@.len() - 1] == (qx as u32, qy as u32));
                        }
                    }
                }
            } else {
                proof {
                    assert forall|qx: int, qy: int|
                        #[trigger] self.has(qx, qy) && cell_index(w as int, qx, qy) < i + 1 implies out@.contains(
                            (qx as u32, qy as u32),
                        ) by {
                        if cell_index(w as int, qx, qy) == i {
                            lemma_cell_index_injective(
                                w as int,
                                qx,
                                qy,
                                i as int % w as int,
                                i as int / w as int,
                            );
                        }
                    }
                }
            }
            i = i + 1;
        }
        proof {
            assert forall|x: int, y: int| #[trigger] self.has(x, y) implies out@.contains(
                (x as u32, y as u32),
            ) by {
                lemma_cell_index_bounds(w as int, self.h as int, x, y);
            }
        }
        out
    }
}

/// Whether cell `a` comes before cell `b` row by row: on an earlier row, or
/// further left on the same row.
pub open spec fn row_major_before(a: (u32, u32), b: (u32, u32)) -> bool {
    a.1 < b.1 || (a.1 == b.1 && a.0 < b.0)
}

/// The cells of the ellipse inscribed in `bounds`, row by row. `bounds` is
/// expected to lie inside the canvas already; an empty rectangle yields nothing.
pub fn oval_cells(bounds: CellRect) -> (cells: Vec<(u32, u32)>)
    requires
        bounds.x + bounds.w <= u32::MAX,
        bounds.y + bounds.h <= u32::MAX,
    ensures
        forall|k: int|
            0 <= k < cells@.len() ==> in_oval(
                bounds,
                (#[trigger] cells@[k]).0 as int,
                cells@[k].1 as int,
            ),
        forall|x: int, y: int|
            #[trigger] in_oval(bounds, x, y) ==> cells@.contains((x as u32, y as u32)),
        forall|i: int, j: int|
            0 <= i < j < cells@.len() ==> row_major_before(#[trigger] cells@[i], #[trigger] cells@[j]),
{
    let x0 = bounds.x;
    let y0 = bounds.y;
    let w = bounds.w;
    let h = bounds.h;
    proof {
        lemma_square_le_u32(w as int);
        lemma_square_le_u32(h as int);
    }
    let ww: u128 = (w as u128) * (w as u128);
    let hh: u128 = (h as u128) * (h as u128);
    proof {
        lemma_product_le_u128(ww as int, hh as int);
    }
    let limit: u128 = ww * hh;
    let mut out: Vec<(u32, u32)> = Vec::new();
    let mut dy: u32 = 0;
    while dy < h
        invariant
            dy <= h,
            x0 == bounds.x,
            y0 == bounds.y,
            w == bounds.w,
            h == bounds.h,
            bounds.x + bounds.w <= u32::MAX,
            bounds.y + bounds.h <= u32::MAX,
            ww == w * w,
            hh == h * h,
            ww <= 0xffff_fffe_0000_0001,
            hh <= 0xffff_fffe_0000_0001,
            limit == ww * hh,
            forall|k: int|
                0 <= k < out@.len() ==> in_oval(bounds, (#[trigger] out@[k]).0 as int, out@[k].1 as int),
            forall|x: int, y: int|
                #[trigger] in_oval(bounds, x, y) && y < y0 + dy ==> out@.contains((x as u32, y as u32)),
            forall|i: int, j: int|
                0 <= i < j < out@.len() ==> row_major_before(#[trigger] out@[i], #[trigger] out@[j]),
            forall|k: int| 0 <= k < out@.len() ==> (#[trigger] out@[k]).1 < y0 + dy,
        decreases h - dy,
    {
        let mut dx: u32 = 0;
        while dx < w
            invariant
                dy < h,
                dx <= w,
                x0 == bounds.x,
                y0 == bounds.y,
                w == bounds.w,
                h == bounds.h,
                bounds.x + bounds.w <= u32::MAX,
                bounds.y + bounds.h <= u32::MAX,
                ww == w * w,
                hh == h * h,
                ww <= 0xffff_fffe_0000_0001,
                hh <= 0xffff_fffe_0000_0001,
                limit == ww * hh,
                forall|k: int|
                    0 <= k < out@.len() ==> in_oval(
                        bounds,
                        (#[trigger] out@[k]).0 as int,
                        out@[k].1 as int,
                    ),
                forall|x: int, y: int|
                    #[trigger] in_oval(bounds, x, y) && (y < y0 + dy || (y == y0 + dy && x < x0 + dx))
                        ==> out@.contains((x as u32, y as u32)),
                forall|i: int, j: int|
                    0 <= i < j < out@.len() ==> row_major_before(#[trigger] out@[i], #[trigger] out@[j]),
                forall|k: int|
                    0 <= k < out@.len() ==> row_major_before(
                        #[trigger] out@[k],
                        ((x0 + dx) as u32, (y0 + dy) as u32),
                    ),
            decreases w - dx,
        {
            let ax: i64 = 2 * (dx as i64) + 1 - (w as i64);
            let ay: i64 = 2 * (dy as i64) + 1 - (h as i64);
            proof {
                lemma_square_le_square(ax as int, w as int);
                lemma_square_le_square(ay as int, h as int);
                lemma_square_le_u32(w as int);
                lemma_square_le_u32(h as int);
            }
            let ax2: u128 = ((ax as i128) * (ax as i128)) as u128;
            let ay2: u128 = ((ay as i128) * (ay as i128)) as u128;
            proof {
                lemma_product_le(ax2 as int, ww as int, hh as int);
                lemma_product_le(ay2 as int, hh as int, ww as int);
                assert(ww * hh == hh * ww) by (nonlinear_arith);
            }
            let t1: u128 = ax2 * hh;
            let t2: u128 = ay2 * ww;
            let inside = t1 <= limit && t2 <= limit - t1;
            let ghost x = (x0 + dx) as int;
            let ghost y = (y0 + dy) as int;
            assert(inside == in_oval(bounds, x, y));
            let ghost before = out@;
            if inside {
                out.push((x0 + dx, y0 + dy));
            }
            proof {
                assert forall|qx: int, qy: int|
                    #[trigger] in_oval(bounds, qx, qy) && (qy < y0 + dy || (qy == y0 + dy && qx < x0
                        + dx + 1)) implies out@.contains((qx as u32, qy as u32)) by {
                    if qy == y && qx == x {
                        assert(out@[out@.len() - 1] == (qx as u32, qy as u32));
                    } else {
                        let k = choose|k: int| 0 <= k < before.len() && before[k] == (qx as u32, qy as u32);
                        assert(out@[k] == before[k]);
                    }
                }
            }
            dx = dx + 1;
        }
        dy = dy + 1;
    }
    out
}

proof fn lemma_positive_width(w: int, h: int)
    requires
        0 <= w,
        0 <= h,
    ensures
        w * h > 0 ==> w > 0,
{
    if w == 0 {
        assert(w * h == 0) by (nonlinear_arith)
            requires
                w == 0,
        ;
    }
}

proof fn lemma_square_le_u32(a: int)
    requires
        0 <= a <= u32::MAX,
    ensures
        a * a <= 0xffff_fffe_0000_0001,
{
    assert(a * a <= u32::MAX * u32::MAX) by (nonlinear_arith)
        requires
            0 <= a <= u32::MAX,
    ;
}

proof fn lemma_product_le_u128(a: int, b: int)
    requires
        0 <= a <= 0xffff_fffe_0000_0001,
        0 <= b <= 0xffff_fffe_0000_0001,
    ensures
        a * b <= u128::MAX,
{
    assert(a * b <= 0xffff_fffe_0000_0001 * 0xffff_fffe_0000_0001) by (nonlinear_arith)
        requires
            0 <= a <= 0xffff_fffe_0000_0001,
            0 <= b <= 0xffff_fffe_0000_0001,
    ;
}

proof fn lemma_square_le_square(a: int, b: int)
    requires
        -b <= a <= b,
    ensures
        0 <= a * a <= b * b,
{
    assert(0 <= a * a <= b * b) by (nonlinear_arith)
        requires
            -b <= a <= b,
    ;
}

proof fn lemma_product_le(a: int, b: int, c: int)
    requires
        0 <= a <= b,
        0 <= c,
    ensures
        0 <= a * c <= b * c,
{
    assert(0 <= a * c <= b * c) by (nonlinear_arith)
        requires
            0 <= a <= b,
            0 <= c,
    ;
}

} // verus!
