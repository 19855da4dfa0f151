use vstd::prelude::*;

use crate::grid::{cell_index, lemma_cell_index_bounds, lemma_cell_index_injective};
use crate::palette::Color;
use crate::tile::{blank_tile, transparent_bg, transparent_bg_spec, Tile};

verus! {

/// A named, toggleable plane of tiles.
///
/// `offset` shifts the layer on the canvas: canvas cell `(cx, cy)` shows the
/// tile at buffer `(cx - offset.0, cy - offset.1)`. Content shifted outside the
/// canvas stays in `tiles`, so shifting it back restores it.
///
/// `dirty_cells` lists, without repetition, the buffer cells changed since the
/// renderer last looked; `full_upload` asks the renderer for a full re-upload.
#[derive(Debug)]
pub struct Layer {
    pub name: String,
    pub visible: bool,
    pub tiles: Vec<Tile>,
    pub offset: (i32, i32),
    pub dirty_cells: Vec<(u32, u32)>,
    pub full_upload: bool,
}

/// A tile that shows nothing: glyph 0 on the transparent background.
pub open spec fn is_empty_tile_spec(t: Tile) -> bool {
    t.bg == transparent_bg_spec() && t.glyph == 0
}

/// `top` flattened onto `bot`. An opaque `top` wins; an empty `top` shows
/// `bot`; a glyph on a transparent background keeps its glyph and foreground
/// over `bot`'s background.
pub open spec fn composite_over_spec(top: Tile, bot: Tile) -> Tile {
    if top.bg != transparent_bg_spec() {
        top
    } else if top.glyph == 0 {
        bot
    } else {
        Tile { glyph: top.glyph, fg: top.fg, bg: bot.bg }
    }
}

/// Compositing: a top tile whose background is not the transparent color
/// covers the tile below completely, whatever its glyph (glyph 0 included);
/// an empty top tile lets the tile below show unchanged; a glyph on the
/// transparent background keeps its glyph and color over the lower
/// background. In every case the result's glyph is the top glyph unless the
/// top tile is empty.
pub proof fn lemma_composite_over(top: Tile, bot: Tile)
    ensures
        top.bg != transparent_bg_spec() ==> composite_over_spec(top, bot) == top,
        top.bg == transparent_bg_spec() && top.glyph == 0 ==> composite_over_spec(top, bot) == bot,
        top.bg == transparent_bg_spec() && top.glyph != 0 ==> {
            let t = composite_over_spec(top, bot);
            &&& t.glyph == top.glyph
            &&& t.fg == top.fg
            &&& t.bg == bot.bg
        },
        !is_empty_tile_spec(top) ==> composite_over_spec(top, bot).glyph == top.glyph,
{
}

/// Merging down: where the upper layer shows a tile with a non-transparent
/// background on a canvas cell, the merged lower layer holds exactly that
/// tile there.
pub proof fn lemma_merge_opaque_cell_wins(below: Layer, above: Layer, width: int, height: int, bx: int, by: int)
    requires
        0 <= bx + below.offset.0 - above.offset.0 < width,
        0 <= by + below.offset.1 - above.offset.1 < height,
        above.tiles@[cell_index(width, bx + below.offset.0 - above.offset.0, by + below.offset.1
            - above.offset.1)].bg != transparent_bg_spec(),
    ensures
        merged_tile(below, above, width, height, bx, by) == above.tiles@[cell_index(
            width,
            bx + below.offset.0 - above.offset.0,
            by + below.offset.1 - above.offset.1,
        )],
{
}

/// What `merge_from_above` leaves at buffer cell `(bx, by)` of `below`: the
/// `above` tile that shows on the same canvas cell, composited over the
/// current tile, when there is a non-empty one inside `above`'s buffer.
pub open spec fn merged_tile(below: Layer, above: Layer, width: int, height: int, bx: int, by: int) -> Tile {
    let tx = bx + below.offset.0 - above.offset.0;
    let ty = by + below.offset.1 - above.offset.1;
    let bot = below.tiles@[cell_index(width, bx, by)];
    if 0 <= tx < width && 0 <= ty < height && !is_empty_tile_spec(
        above.tiles@[cell_index(width, tx, ty)],
    ) {
        composite_over_spec(above.tiles@[cell_index(width, tx, ty)], bot)
    } else {
        bot
    }
}

/// Every non-empty tile of `above` can be carried to `below`'s buffer with
/// 32-bit signed arithmetic.
pub open spec fn merge_offsets_fit(below: Layer, above: Layer, width: int, height: int) -> bool {
    forall|tx: int, ty: int|
        0 <= tx < width && 0 <= ty < height && !is_empty_tile_spec(
            #[trigger] above.tiles@[cell_index(width, tx, ty)],
        ) ==> {
            &&& i32::MIN <= tx + above.offset.0 <= i32::MAX
            &&& i32::MIN <= tx + above.offset.0 - below.offset.0 <= i32::MAX
            &&& i32::MIN <= ty + above.offset.1 <= i32::MAX
            &&& i32::MIN <= ty + above.offset.1 - below.offset.1 <= i32::MAX
        }
}

impl Layer {
    /// No cell is listed twice as dirty.
    pub open spec fn wf(&self) -> bool {
        self.dirty_cells@.no_duplicates()
    }

    /// The layer is well formed, holds one tile per cell of a
    /// `width` x `height` canvas, and lists only cells of that canvas as dirty.
    pub open spec fn fits(&self, width: int, height: int) -> bool {
        &&& self.wf()
        &&& self.tiles@.len() == width * height
        &&& forall|k: int|
            0 <= k < self.dirty_cells@.len() ==> (#[trigger] self.dirty_cells@[k]).0 < width
                && self.dirty_cells@[k].1 < height
    }

    /// Name, visibility, tiles and offset: everything but the renderer's bookkeeping.
    pub open spec fn same_content(&self, other: &Layer) -> bool {
        &&& self.name@ == other.name@
        &&& self.visible == other.visible
        &&& self.tiles@ == other.tiles@
        &&& self.offset == other.offset
    }

    /// A visible layer of blank tiles at offset zero, flagged for a full upload.
    pub fn new(name: String, width: u32, height: u32) -> (l: Layer)
        requires
            width * height <= u32::MAX,
        ensures
            l.name@ == name@,
            l.visible,
            l.tiles@ == Seq::new((width * height) as nat, |i: int| blank_tile()),
            l.offset == (0i32, 0i32),
            l.dirty_cells@.len() == 0,
            l.full_upload,
            l.fits(width as int, height as int),
    {
        let n = (width * height) as usize;
        let mut tiles: Vec<Tile> = Vec::new();
        let mut i: usize = 0;
        while i < n
            invariant
                i <= n,
                n == width * height,
                tiles@ == Seq::new(i as nat, |j: int| blank_tile()),
            decreases n - i,
        {
            tiles.push(Tile::default());
            i = i + 1;
            assert(tiles@ =~= Seq::new(i as nat, |j: int| blank_tile()));
        }
        Layer {
            name,
            visible: true,
            tiles,
            offset: (0, 0),
            dirty_cells: Vec::new(),
            full_upload: true,
        }
    }

    /// Buffer position of cell `(x, y)`.
    pub fn idx(&self, width: u32, x: u32, y: u32) -> (i: usize)
        requires
            y * width + x <= u32::MAX,
        ensures
            i == cell_index(width as int, x as int, y as int),
    {
        (y * width + x) as usize
    }

    /// The tile at cell `(x, y)`.
    pub fn get(&self, width: u32, x: u32, y: u32) -> (t: Tile)
        requires
            y * width + x <= u32::MAX,
            cell_index(width as int, x as int, y as int) < self.tiles@.len(),
        ensures
            t == self.tiles@[cell_index(width as int, x as int, y as int)],
    {
        self.tiles[self.idx(width, x, y)]
    }

    /// Is `(x, y)` listed as dirty?
    fn is_dirty(&self, x: u32, y: u32) -> (b: bool)
        ensures
            b == self.dirty_cells@.contains((x, y)),
    {
        let mut i: usize = 0;
        while i < self.dirty_cells.len()
            invariant
                i <= self.dirty_cells@.len(),
                forall|j: int| 0 <= j < i ==> self.dirty_cells@[j] != (x, y),
            decreases self.dirty_cells@.len() - i,
        {
            let (dx, dy) = self.dirty_cells[i];
            if dx == x && dy == y {
                return true;
            }
            i = i + 1;
        }
        false
    }

    /// Writes `tile` at cell `(x, y)`; when that changes the cell, the cell is
    /// listed as dirty.
    pub fn set(&mut self, width: u32, x: u32, y: u32, tile: Tile)
        requires
            old(self).wf(),
            y * width + x <= u32::MAX,
            cell_index(width as int, x as int, y as int) < old(self).tiles@.len(),
        ensures
            final(self).wf(),
            final(self).tiles@ == old(self).tiles@.update(
                cell_index(width as int, x as int, y as int),
                tile,
            ),
            final(self).name == old(self).name,
            final(self).visible == old(self).visible,
            final(self).offset == old(self).offset,
            final(self).full_upload == old(self).full_upload,
            forall|p: (u32, u32)|
                #[trigger] final(self).dirty_cells@.contains(p) <==> (old(self).dirty_cells@.contains(p)
                    || (p == (x, y) && old(self).tiles@[cell_index(
                    width as int,
                    x as int,
                    y as int,
                )] != tile)),
            forall|hh: int|
                old(self).fits(width as int, hh) && x < width && y < hh ==> #[trigger] final(self).fits(
                    width as int,
                    hh,
                ),
    {
        let i = self.idx(width, x, y);
        if self.tiles[i] != tile {
            self.tiles.set(i, tile);
            if !self.is_dirty(x, y) {
                self.dirty_cells.push((x, y));
                proof {
                    assert forall|p: (u32, u32)|
                        #[trigger] self.dirty_cells@.contains(p) <==> (old(self).dirty_cells@.contains(p)
                            || p == (x, y)) by {
                        if self.dirty_cells@.contains(p) {
                            let k = choose|k: int|
                                0 <= k < self.dirty_cells@.len() && self.dirty_cells@[k] == p;
                            if k < old(self).dirty_cells@.len() {
                                assert(old(self).dirty_cells@[k] == p);
                            }
                        }
                        if old(self).dirty_cells@.contains(p) {
                            let k = choose|k: int|
                                0 <= k < old(self).dirty_cells@.len() && old(self).dirty_cells@[k]
                                    == p;
                            assert(self.dirty_cells@[k] == p);
                        }
                        if p == (x, y) {
                            assert(self.dirty_cells@[self.dirty_cells@.len() - 1] == p);
                        }
                    }
                }
            }
        }
    }
    /// A copy of this layer with the same content and bookkeeping.
    pub fn duplicate(&self) -> (l: Layer)
        ensures
            l.same_content(self),
            l.dirty_cells@ == self.dirty_cells@,
            l.full_upload == self.full_upload,
    {
        let mut tiles: Vec<Tile> = Vec::new();
        let mut i: usize = 0;
        while i < self.tiles.len()
            invariant
                i <= self.tiles@.len(),
                tiles@ == self.tiles@.subrange(0, i as int),
            decreases self.tiles@.len() - i,
        {
            tiles.push(self.tiles[i]);
            i = i + 1;
            assert(tiles@ =~= self.tiles@.subrange(0, i as int));
        }
        assert(tiles@ =~= self.tiles@);
        let mut dirty: Vec<(u32, u32)> = Vec::new();
        let mut j: usize = 0;
        while j < self.dirty_cells.len()
            invariant
                j <= self.dirty_cells@.len(),
                dirty@ == self.dirty_cells@.subrange(0, j as int),
            decreases self.dirty_cells@.len() - j,
        {
            dirty.push(self.dirty_cells[j]);
            j = j + 1;
            assert(dirty@ =~= self.dirty_cells@.subrange(0, j as int));
        }
        assert(dirty@ =~= self.dirty_cells@);
        Layer {
            name: self.name.clone(),
            visible: self.visible,
            tiles,
            offset: self.offset,
            dirty_cells: dirty,
            full_upload: self.full_upload,
        }
    }

    /// Merges `above` into this layer, `above` taking precedence. Each
    /// non-empty tile of `above` is placed through both layers' offsets and
    /// composited over the tile it lands on; tiles that land outside this
    /// layer's buffer are dropped.
    pub fn merge_from_above(&mut self, above: &Layer, width: u32, height: u32)
        requires
            old(self).fits(width as int, height as int),
            above.tiles@.len() == width * height,
            width * height <= u32::MAX,
            width <= i32::MAX,
            height <= i32::MAX,
            merge_offsets_fit(*old(self), *above, width as int, height as int),
        ensures
            final(self).fits(width as int, height as int),
            final(self).name == old(self).name,
            final(self).visible == old(self).visible,
            final(self).offset == old(self).offset,
            final(self).full_upload == old(self).full_upload,
            forall|bx: int, by: int|
                0 <= bx < width && 0 <= by < height ==> #[trigger] final(self).tiles@[cell_index(
                    width as int,
                    bx,
                    by,
                )] == merged_tile(*old(self), *above, width as int, height as int, bx, by),
            forall|p: (u32, u32)|
                #[trigger] final(self).dirty_cells@.contains(p) <==> (old(self).dirty_cells@.contains(p)
                    || (p.0 < width && p.1 < height && merged_tile(
                    *old(self),
                    *above,
                    width as int,
                    height as int,
                    p.0 as int,
                    p.1 as int,
                ) != old(self).tiles@[cell_index(width as int, p.0 as int, p.1 as int)])),
    {
        let ghost w = width as int;
        let ghost h = height as int;
        let ghost start = *self;
        let ghost dx = self.offset.0 - above.offset.0;
        let ghost dy = self.offset.1 - above.offset.1;
        let mut ty: u32 = 0;
        while ty < height
            invariant
                0 <= ty <= height,
                w == width,
                h == height,
                self.fits(w, h),
                self.name == start.name,
                self.visible == start.visible,
                self.offset == start.offset,
                self.full_upload == start.full_upload,
                start.fits(w, h),
                above.tiles@.len() == w * h,
                w * h <= u32::MAX,
                w <= i32::MAX,
                h <= i32::MAX,
                merge_offsets_fit(start, *above, w, h),
                dx == start.offset.0 - above.offset.0,
                dy == start.offset.1 - above.offset.1,
                forall|bx: int, by: int|
                    0 <= bx < w && 0 <= by < h ==> #[trigger] self.tiles@[cell_index(w, bx, by)]
                        == if by + dy < ty {
                        merged_tile(start, *above, w, h, bx, by)
                    } else {
                        start.tiles@[cell_index(w, bx, by)]
                    },
                forall|p: (u32, u32)|
                    #[trigger] self.dirty_cells@.contains(p) <==> (start.dirty_cells@.contains(p)
                        || (p.0 < w && p.1 < h && p.1 + dy < ty && merged_tile(
                        start,
                        *above,
                        w,
                        h,
                        p.0 as int,
                        p.1 as int,
                    ) != start.tiles@[cell_index(w, p.0 as int, p.1 as int)])),
            decreases height - ty,
        {
            let mut tx: u32 = 0;
            while tx < width
                invariant
                    0 <= ty < height,
                    0 <= tx <= width,
                    w == width,
                    h == height,
                    self.fits(w, h),
                    self.name == start.name,
                    self.visible == start.visible,
                    self.offset == start.offset,
                    self.full_upload == start.full_upload,
                    start.fits(w, h),
                    above.tiles@.len() == w * h,
                    w * h <= u32::MAX,
                    w <= i32::MAX,
                    h <= i32::MAX,
                    merge_offsets_fit(start, *above, w, h),
                    dx == start.offset.0 - above.offset.0,
                    dy == start.offset.1 - above.offset.1,
                    forall|bx: int, by: int|
                        0 <= bx < w && 0 <= by < h ==> #[trigger] self.tiles@[cell_index(w, bx, by)]
                            == if by + dy < ty || (by + dy == ty && bx + dx < tx) {
                            merged_tile(start, *above, w, h, bx, by)
                        } else {
                            start.tiles@[cell_index(w, bx, by)]
                        },
                    forall|p: (u32, u32)|
                        #[trigger] self.dirty_cells@.contains(p) <==> (start.dirty_cells@.contains(p)
                            || (p.0 < w && p.1 < h && (p.1 + dy < ty || (p.1 + dy == ty && p.0
                            + dx < tx)) && merged_tile(
                            start,
                            *above,
                            w,
                            h,
                            p.0 as int,
                            p.1 as int,
                        ) != start.tiles@[cell_index(w, p.0 as int, p.1 as int)])),
                decreases width - tx,
            {
                proof {
                    lemma_cell_index_bounds(w, h, tx as int, ty as int);
                }
                let top = above.get(width, tx, ty);
                if is_empty_tile(top) {
                    proof {
                        self.lemma_merge_skip(start, *above, w, h, dx, dy, tx as int, ty as int);
                    }
                    tx = tx + 1;
                    continue;
                }
                assert(above.tiles@[cell_index(w, tx as int, ty as int)] == top);
                let cx = tx as i32 + above.offset.0;
                let cy = ty as i32 + above.offset.1;
                let bx = cx - self.offset.0;
                let by = cy - self.offset.1;
                if bx < 0 || by < 0 || bx >= width as i32 || by >= height as i32 {
                    proof {
                        self.lemma_merge_skip(start, *above, w, h, dx, dy, tx as int, ty as int);
                    }
                    tx = tx + 1;
                    continue;
                }
                let bx = bx as u32;
                let by = by as u32;
                proof {
                    lemma_cell_index_bounds(w, h, bx as int, by as int);
                }
                let bot = self.get(width, bx, by);
                let ghost before = *self;
                let merged = composite_over(top, bot);
                self.set(width, bx, by, merged);
                proof {
                    assert(bot == start.tiles@[cell_index(w, bx as int, by as int)]);
                    assert(merged_tile(start, *above, w, h, bx as int, by as int) == merged);
                    assert forall|qx: int, qy: int|
                        0 <= qx < w && 0 <= qy < h implies #[trigger] self.tiles@[cell_index(
                            w,
                            qx,
                            qy,
                        )] == if qy + dy < ty || (qy + dy == ty && qx + dx < tx + 1) {
                            merged_tile(start, *above, w, h, qx, qy)
                        } else {
                            start.tiles@[cell_index(w, qx, qy)]
                        } by {
                        lemma_cell_index_bounds(w, h, qx, qy);
                        if qx != bx || qy != by {
                            if cell_index(w, qx, qy) == cell_index(w, bx as int, by as int) {
                                lemma_cell_index_injective(w, qx, qy, bx as int, by as int);
                            }
                            if qy + dy == ty && qx + dx == tx {
                                assert(qx == bx && qy == by);
                            }
                        }
                    }
                    assert forall|p: (u32, u32)|
                        #[trigger] self.dirty_cells@.contains(p) <==> (start.dirty_cells@.contains(p)
                            || (p.0 < w && p.1 < h && (p.1 + dy < ty || (p.1 + dy == ty && p.0
                            + dx < tx + 1)) && merged_tile(
                            start,
                            *above,
                            w,
                            h,
                            p.0 as int,
                            p.1 as int,
                        ) != start.tiles@[cell_index(w, p.0 as int, p.1 as int)])) by {
                        assert(before.dirty_cells@.contains(p) == (start.dirty_cells@.contains(p)
                            || (p.0 < w && p.1 < h && (p.1 + dy < ty || (p.1 + dy == ty && p.0
                            + dx < tx)) && merged_tile(
                            start,
                            *above,
                            w,
                            h,
                            p.0 as int,
                            p.1 as int,
                        ) != start.tiles@[cell_index(w, p.0 as int, p.1 as int)])));
                        if p.1 + dy == ty && p.0 + dx == tx && p.0 < w && p.1 < h {
                            assert(p.0 == bx && p.1 == by);
                        }
                    }
                }
                tx = tx + 1;
            }
            ty = ty + 1;
        }
    }

    /// Cell `(tx, ty)` of `above` lands on no buffer cell of this layer, or is
    /// empty: stepping past it changes nothing.
    proof fn lemma_merge_skip(
        &self,
        start: Layer,
        above: Layer,
        w: int,
        h: int,
        dx: int,
        dy: int,
        tx: int,
        ty: int,
    )
        requires
            0 <= tx < w,
            0 <= ty < h,
            start.tiles@.len() == w * h,
            above.tiles@.len() == w * h,
            dx == start.offset.0 - above.offset.0,
            dy == start.offset.1 - above.offset.1,
            is_empty_tile_spec(above.tiles@[cell_index(w, tx, ty)]) || !(0 <= tx - dx < w && 0
                <= ty - dy < h),
            forall|bx: int, by: int|
                0 <= bx < w && 0 <= by < h ==> #[trigger] self.tiles@[cell_index(w, bx, by)] == if by
                    + dy < ty || (by + dy == ty && bx + dx < tx) {
                    merged_tile(start, above, w, h, bx, by)
                } else {
                    start.tiles@[cell_index(w, bx, by)]
                },
            forall|p: (u32, u32)|
                #[trigger] self.dirty_cells@.contains(p) <==> (start.dirty_cells@.contains(p) || (p.0
                    < w && p.1 < h && (p.1 + dy < ty || (p.1 + dy == ty && p.0 + dx < tx))
                    && merged_tile(start, above, w, h, p.0 as int, p.1 as int)
                    != start.tiles@[cell_index(w, p.0 as int, p.1 as int)])),
        ensures
            forall|bx: int, by: int|
                0 <= bx < w && 0 <= by < h ==> #[trigger] self.tiles@[cell_index(w, bx, by)] == if by
                    + dy < ty || (by + dy == ty && bx + dx < tx + 1) {
                    merged_tile(start, above, w, h, bx, by)
                } else {
                    start.tiles@[cell_index(w, bx, by)]
                },
            forall|p: (u32, u32)|
                #[trigger] self.dirty_cells@.contains(p) <==> (start.dirty_cells@.contains(p) || (p.0
                    < w && p.1 < h && (p.1 + dy < ty || (p.1 + dy == ty && p.0 + dx < tx + 1))
                    && merged_tile(start, above, w, h, p.0 as int, p.1 as int)
                    != start.tiles@[cell_index(w, p.0 as int, p.1 as int)])),
    {
        assert forall|bx: int, by: int|
            0 <= bx < w && 0 <= by < h implies #[trigger] self.tiles@[cell_index(w, bx, by)] == if by
                + dy < ty || (by + dy == ty && bx + dx < tx + 1) {
                merged_tile(start, above, w, h, bx, by)
            } else {
                start.tiles@[cell_index(w, bx, by)]
            } by {
            if by + dy == ty && bx + dx == tx {
                assert(merged_tile(start, above, w, h, bx, by) == start.tiles@[cell_index(w, bx, by)]);
            }
        }
        assert forall|p: (u32, u32)|
            #[trigger] self.dirty_cells@.contains(p) <==> (start.dirty_cells@.contains(p) || (p.0 < w
                && p.1 < h && (p.1 + dy < ty || (p.1 + dy == ty && p.0 + dx < tx + 1))
                && merged_tile(start, above, w, h, p.0 as int, p.1 as int)
                != start.tiles@[cell_index(w, p.0 as int, p.1 as int)])) by {
            if p.1 + dy == ty && p.0 + dx == tx && p.0 < w && p.1 < h {
                assert(merged_tile(start, above, w, h, p.0 as int, p.1 as int)
                    == start.tiles@[cell_index(w, p.0 as int, p.1 as int)]);
            }
        }
    }
}

/// Does `t` show nothing?
pub fn is_empty_tile(t: Tile) -> (b: bool)
    ensures
        b == is_empty_tile_spec(t),
{
    t.bg == transparent_bg() && t.glyph == 0
}

/// Flattens `top` onto `bot`; see [`composite_over_spec`]. A single tile holds
/// one glyph, so when a glyph of `top` sits on a transparent background the
/// glyph of `bot` is lost and only its background shows through.
pub fn composite_over(top: Tile, bot: Tile) -> (t: Tile)
    ensures
        t == composite_over_spec(top, bot),
        top.bg != transparent_bg_spec() ==> t == top,
        top.bg == transparent_bg_spec() && top.glyph == 0 ==> t == bot,
        top.bg == transparent_bg_spec() && top.glyph != 0 ==> t.glyph == top.glyph && t.fg == top.fg
            && t.bg == bot.bg,
{
    if top.bg != transparent_bg() {
        top
    } else if top.glyph == 0 {
        bot
    } else {
        Tile { glyph: top.glyph, fg: top.fg, bg: bot.bg }
    }
}

} // verus!
