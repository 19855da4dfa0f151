use vstd::prelude::*;

use crate::grid::{cell_index, lemma_cell_index_bounds, lemma_cell_index_injective};
use crate::selection::{max_int, min_int};

verus! {

/// A user-arranged grid of glyph slots; each slot holds a CP437 glyph index or
/// nothing.
#[derive(Clone, Debug)]
pub struct GlyphPalette {
    pub name: String,
    pub w: u32,
    pub h: u32,
    pub slots: Vec<Option<u8>>,
}

/// The newest glyph palette file version this library reads.
pub const CURRENT_VERSION: u32 = 1;

/// Why a glyph palette file was rejected.
#[derive(Debug, PartialEq, Eq, Structural)]
pub enum PaletteFileError {
    /// The file was written by a newer version of the format.
    NewerVersion { version: u32 },
    /// The slot list does not hold `w * h` slots.
    SlotCount { w: u32, h: u32, expected: u64, found: u64 },
}

impl GlyphPalette {
    /// One slot per grid cell.
    pub open spec fn wf(&self) -> bool {
        self.slots@.len() == self.w * self.h
    }

    /// The glyph in slot `(x, y)`; nothing outside the grid.
    pub open spec fn slot(&self, x: int, y: int) -> Option<u8> {
        if 0 <= x < self.w && 0 <= y < self.h {
            self.slots@[cell_index(self.w as int, x, y)]
        } else {
            None
        }
    }

    /// An empty `max(w, 1)` x `max(h, 1)` palette.
    pub fn new(name: String, w: u32, h: u32) -> (p: GlyphPalette)
        requires
            max_int(w as int, 1) * max_int(h as int, 1) <= usize::MAX,
        ensures
            p.wf(),
            p.name@ == name@,
            p.w == max_int(w as int, 1),
            p.h == max_int(h as int, 1),
            forall|x: int, y: int| #[trigger] p.slot(x, y) == None::<u8>,
    {
        let w = if w >= 1 { w } else { 1 };
        let h = if h >= 1 { h } else { 1 };
        let n = (w as usize) * (h as usize);
        let mut slots: Vec<Option<u8>> = Vec::new();
        let mut i: usize = 0;
        while i < n
            invariant
                i <= n,
                slots@.len() == i,
                forall|j: int| 0 <= j < i ==> slots@[j] == None::<u8>,
            decreases n - i,
        {
            slots.push(None);
            i = i + 1;
        }
        let p = GlyphPalette { name, w, h, slots };
        assert forall|x: int, y: int| #[trigger] p.slot(x, y) == None::<u8> by {
            if 0 <= x < w && 0 <= y < h {
                lemma_cell_index_bounds(w as int, h as int, x, y);
            }
        }
        p
    }

    fn idx(&self, x: u32, y: u32) -> (i: usize)
        requires
            self.wf(),
            x < self.w,
            y < self.h,
        ensures
            i == cell_index(self.w as int, x as int, y as int),
            i < self.slots@.len(),
    {
        proof {
            lemma_cell_index_bounds(self.w as int, self.h as int, x as int, y as int);
            assert(self.slots@.len() == self.slots.len());
            assert(y * self.w <= y * self.w + x);
        }
        (y as usize) * (self.w as usize) + (x as usize)
    }

    /// The glyph in slot `(x, y)`, or `None` for an empty slot or one outside the grid.
    pub fn get(&self, x: u32, y: u32) -> (g: Option<u8>)
        requires
            self.wf(),
        ensures
            g == self.slot(x as int, y as int),
    {
        if x >= self.w || y >= self.h {
            return None;
        }
        self.slots[self.idx(x, y)]
    }

    /// Puts `g` in slot `(x, y)`; slots outside the grid are ignored.
    pub fn set(&mut self, x: u32, y: u32, g: Option<u8>)
        requires
            old(self).wf(),
        ensures
            final(self).wf(),
            final(self).name == old(self).name,
            final(self).w == old(self).w,
            final(self).h == old(self).h,
            forall|qx: int, qy: int|
                #[trigger] final(self).slot(qx, qy) == if qx == x && qy == y && x < old(self).w && y
                    < old(self).h {
                    g
                } else {
                    old(self).slot(qx, qy)
                },
    {
        if x >= self.w || y >= self.h {
            return;
        }
        let i = self.idx(x, y);
        self.slots.set(i, g);
        proof {
            assert forall|qx: int, qy: int|
                #[trigger] self.slot(qx, qy) == if qx == x && qy == y {
                    g
                } else {
                    old(self).slot(qx, qy)
                } by {
                if 0 <= qx < self.w && 0 <= qy < self.h {
                    lemma_cell_index_bounds(self.w as int, self.h as int, qx, qy);
                    if cell_index(self.w as int, qx, qy) == i {
                        lemma_cell_index_injective(self.w as int, qx, qy, x as int, y as int);
                    }
                }
            }
        }
    }

    /// Resizes the grid to `max(new_w, 1)` x `max(new_h, 1)`, keeping the
    /// slots of the overlapping top-left region; new slots are empty.
    pub fn resize(&mut self, new_w: u32, new_h: u32)
        requires
            old(self).wf(),
            max_int(new_w as int, 1) * max_int(new_h as int, 1) <= usize::MAX,
            min_int(max_int(new_h as int, 1), old(self).h as int) * max_int(new_w as int, 1)
                <= u32::MAX + 1,
        ensures
            final(self).wf(),
            final(self).name == old(self).name,
            final(self).w == max_int(new_w as int, 1),
            final(self).h == max_int(new_h as int, 1),
            forall|x: int, y: int|
                #[trigger] final(self).slot(x, y) == if x < min_int(old(self).w as int, final(self).w as int)
                    && y < min_int(old(self).h as int, final(self).h as int) {
                    old(self).slot(x, y)
                } else {
                    None
                },
    {
        let new_w = if new_w >= 1 { new_w } else { 1 };
        let new_h = if new_h >= 1 { new_h } else { 1 };
        if new_w == self.w && new_h == self.h {
            return;
        }
        let n = (new_w as usize) * (new_h as usize);
        let mut new_slots: Vec<Option<u8>> = Vec::new();
        let mut i: usize = 0;
        while i < n
            invariant
                i <= n,
                new_slots@.len() == i,
                forall|j: int| 0 <= j < i ==> new_slots@[j] == None::<u8>,
            decreases n - i,
        {
            new_slots.push(None);
            i = i + 1;
        }
        let copy_w = if new_w <= self.w { new_w } else { self.w };
        let copy_h = if new_h <= self.h { new_h } else { self.h };
        proof {
            assert forall|qx: int, qy: int|
                0 <= qx < new_w && 0 <= qy < new_h implies #[trigger] new_slots@[cell_index(
                    new_w as int,
                    qx,
                    qy,
                )] == None::<u8> by {
                lemma_cell_index_bounds(new_w as int, new_h as int, qx, qy);
            }
        }
        let mut y: u32 = 0;
        while y < copy_h
            invariant
                self.wf(),
                *self == *old(self),
                copy_w <= new_w,
                copy_w <= self.w,
                copy_h <= new_h,
                copy_h <= self.h,
                copy_h * new_w <= u32::MAX + 1,
                new_slots@.len() == new_w * new_h,
                y <= copy_h,
                forall|qx: int, qy: int|
                    0 <= qx < new_w && 0 <= qy < new_h ==> #[trigger] new_slots@[cell_index(
                        new_w as int,
                        qx,
                        qy,
                    )] == if qx < copy_w && qy < y {
                        self.slot(qx, qy)
                    } else {
                        None
                    },
            decreases copy_h - y,
        {
            let mut x: u32 = 0;
            while x < copy_w
                invariant
                    self.wf(),
                    *self == *old(self),
                    copy_w <= new_w,
                    copy_w <= self.w,
                    copy_h <= new_h,
                    copy_h <= self.h,
                    copy_h * new_w <= u32::MAX + 1,
                    new_slots@.len() == new_w * new_h,
                    y < copy_h,
                    x <= copy_w,
                    forall|qx: int, qy: int|
                        0 <= qx < new_w && 0 <= qy < new_h ==> #[trigger] new_slots@[cell_index(
                            new_w as int,
                            qx,
                            qy,
                        )] == if qx < copy_w && (qy < y || (qy == y && qx < x)) {
                            self.slot(qx, qy)
                        } else {
                            None
                        },
                decreases copy_w - x,
            {
                proof {
                    lemma_cell_index_bounds(new_w as int, copy_h as int, x as int, y as int);
                    lemma_cell_index_bounds(new_w as int, new_h as int, x as int, y as int);
                    assert(new_w * copy_h == copy_h * new_w) by (nonlinear_arith);
                }
                let k = (y * new_w + x) as usize;
                let v = self.slots[self.idx(x, y)];
                new_slots.set(k, v);
                proof {
                    assert forall|qx: int, qy: int|
                        0 <= qx < new_w && 0 <= qy < new_h implies #[trigger] new_slots@[cell_index(
                            new_w as int,
                            qx,
                            qy,
                        )] == if qx < copy_w && (qy < y || (qy == y && qx < x + 1)) {
                            self.slot(qx, qy)
                        } else {
                            None
                        } by {
                        lemma_cell_index_bounds(new_w as int, new_h as int, qx, qy);
                        if cell_index(new_w as int, qx, qy) == k {
                            lemma_cell_index_injective(new_w as int, qx, qy, x as int, y as int);
                        }
                    }
                }
                x = x + 1;
            }
            y = y + 1;
        }
        let ghost old_self = *self;
        self.w = new_w;
        self.h = new_h;
        self.slots = new_slots;
        proof {
            assert forall|x: int, y: int|
                #[trigger] self.slot(x, y) == if x < min_int(old_self.w as int, new_w as int) && y
                    < min_int(old_self.h as int, new_h as int) {
                    old_self.slot(x, y)
                } else {
                    None
                } by {
                if 0 <= x < new_w && 0 <= y < new_h {
                    lemma_cell_index_bounds(new_w as int, new_h as int, x, y);
                }
            }
        }
    }

    /// Empties every slot.
    pub fn clear(&mut self)
        requires
            old(self).wf(),
        ensures
            final(self).wf(),
            final(self).name == old(self).name,
            final(self).w == old(self).w,
            final(self).h == old(self).h,
            forall|x: int, y: int| #[trigger] final(self).slot(x, y) == None::<u8>,
    {
        let mut i: usize = 0;
        while i < self.slots.len()
            invariant
                i <= self.slots@.len(),
                self.slots@.len() == old(self).slots@.len(),
                self.name == old(self).name,
                self.w == old(self).w,
                self.h == old(self).h,
                forall|j: int| 0 <= j < i ==> self.slots@[j] == None::<u8>,
            decreases self.slots@.len() - i,
        {
            self.slots.set(i, None);
            i = i + 1;
        }
        proof {
            assert forall|x: int, y: int| #[trigger] self.slot(x, y) == None::<u8> by {
                if 0 <= x < self.w && 0 <= y < self.h {
                    lemma_cell_index_bounds(self.w as int, self.h as int, x, y);
                }
            }
        }
    }
}

impl Default for GlyphPalette {
    /// An empty 8 x 4 palette named "Palette 1".
    fn default() -> (p: GlyphPalette)
        ensures
            p.wf(),
            p.name@ == "Palette 1"@,
            p.w == 8,
            p.h == 4,
            forall|x: int, y: int| #[trigger] p.slot(x, y) == None::<u8>,
    {
        assert(max_int(8, 1) == 8 && max_int(4, 1) == 4);
        assert(max_int(8, 1) * max_int(4, 1) == 32);
        GlyphPalette::new(String::from_str("Palette 1"), 8, 4)
    }
}

/// Accepts a palette read from a file of format `version`: the version must
/// be one this library knows and the slot list must fill the grid.
pub fn validate_palette_file(version: u32, palette: GlyphPalette) -> (r: Result<GlyphPalette, PaletteFileError>)
    ensures
        version > CURRENT_VERSION ==> r == Err::<GlyphPalette, PaletteFileError>(
            PaletteFileError::NewerVersion { version },
        ),
        version <= CURRENT_VERSION && palette.slots@.len() != palette.w * palette.h ==> r == Err::<
            GlyphPalette,
            PaletteFileError,
        >(
            PaletteFileError::SlotCount {
                w: palette.w,
                h: palette.h,
                expected: (palette.w * palette.h) as u64,
                found: palette.slots@.len() as u64,
            },
        ),
        version <= CURRENT_VERSION && palette.wf() ==> (r matches Ok(p) && p == palette),
{
    if version > CURRENT_VERSION {
        return Err(PaletteFileError::NewerVersion { version });
    }
    proof {
        let w = palette.w as int;
        let h = palette.h as int;
        assert(w * h <= u32::MAX * u32::MAX) by (nonlinear_arith)
            requires
                0 <= w <= u32::MAX,
                0 <= h <= u32::MAX,
        ;
    }
    let expected = (palette.w as u64) * (palette.h as u64);
    let found = palette.slots.len() as u64;
    if found != expected {
        return Err(PaletteFileError::SlotCount { w: palette.w, h: palette.h, expected, found });
    }
    Ok(palette)
}

} // verus!
