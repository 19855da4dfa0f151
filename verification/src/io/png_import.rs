//! Importing a picture as a layer.
use vstd::prelude::*;

use crate::grid::{cell_index, lemma_cell_index_bounds, lemma_cell_of_index};
use crate::layer::Layer;
use crate::palette::{rgba, Color};
use crate::tile::{blank_tile, transparent_bg, transparent_bg_spec, Tile};
use crate::trusted::{decode_image_rgba8, decoded_image};

verus! {

/// The shade glyph for a pixel's coverage: light, medium or dark shade
/// below alpha 64, 128 and 192, a full block from 192 up.
pub open spec fn shade_glyph(a: u8) -> u8 {
    if a < 64 {
        176
    } else if a < 128 {
        177
    } else if a < 192 {
        178
    } else {
        219
    }
}

/// The cell a pixel becomes: a fully transparent pixel gives an empty cell
/// on the transparent background, so lower layers show through; any other
/// pixel gives its shade glyph in its color on black.
pub open spec fn pixel_tile(r: u8, g: u8, b: u8, a: u8) -> Tile {
    if a == 0 {
        Tile { glyph: 0, fg: rgba(0, 0, 0, 255), bg: transparent_bg_spec() }
    } else {
        Tile { glyph: shade_glyph(a), fg: rgba(r, g, b, 255), bg: rgba(0, 0, 0, 255) }
    }
}

/// Canvas cell `(x, y)` of an imported `iw` x `ih` RGBA picture placed at
/// the origin: the pixel's cell where the picture reaches, else blank.
pub open spec fn imported_tile(iw: int, ih: int, px: Seq<u8>, x: int, y: int) -> Tile {
    if x < iw && y < ih {
        let o = 4 * cell_index(iw, x, y);
        pixel_tile(px[o], px[o + 1], px[o + 2], px[o + 3])
    } else {
        blank_tile()
    }
}

/// Importing keeps the picture's geometry and colors: inside the picture,
/// canvas cell `(x, y)` is made from the pixel at column `x`, row `y`, whose
/// four bytes start at `4 * (y * iw + x)` of the row-by-row buffer. A fully
/// transparent pixel gives an empty cell; any other pixel gives a shade
/// glyph in the pixel's own color, made opaque, on black. Outside the
/// picture the cell is blank.
pub proof fn lemma_imported_tile_is_pixel(iw: int, ih: int, px: Seq<u8>, x: int, y: int)
    requires
        0 <= x,
        0 <= y,
    ensures
        ({
            let t = imported_tile(iw, ih, px, x, y);
            let o = 4 * (y * iw + x);
            if x < iw && y < ih {
                &&& px[o + 3] == 0 ==> t.glyph == 0 && t.bg == transparent_bg_spec()
                &&& px[o + 3] != 0 ==> t.fg == rgba(px[o], px[o + 1], px[o + 2], 255) && t.bg == rgba(
                    0,
                    0,
                    0,
                    255,
                ) && t.glyph == shade_glyph(px[o + 3])
            } else {
                t == blank_tile()
            }
        }),
{
}

/// The shade glyph grows with coverage: light, medium and dark shade, then
/// the full block; more alpha never gives a lighter shade.
pub proof fn lemma_shade_glyph_monotone(a: u8, b: u8)
    requires
        a <= b,
    ensures
        shade_glyph(a) <= shade_glyph(b),
        shade_glyph(0) == 176,
        shade_glyph(255) == 219,
{
}

/// The cell for one pixel.
fn tile_for_pixel(r: u8, g: u8, b: u8, a: u8) -> (t: Tile)
    ensures
        t == pixel_tile(r, g, b, a),
{
    if a == 0 {
        Tile { glyph: 0, fg: Color::black(), bg: transparent_bg() }
    } else {
        let glyph: u8 = if a < 64 {
            176
        } else if a < 128 {
            177
        } else if a < 192 {
            178
        } else {
            219
        };
        Tile { glyph, fg: Color::rgb(r, g, b), bg: Color::black() }
    }
}

/// A `canvas_w` x `canvas_h` layer named `name` holding an `iw` x `ih` RGBA
/// picture (`px`, row by row, four bytes a pixel) placed at the origin and
/// clipped to the canvas, one cell per pixel; flagged for a full upload.
pub fn layer_from_rgba(name: String, iw: u32, ih: u32, px: &[u8], canvas_w: u32, canvas_h: u32) -> (l: Layer)
    requires
        px@.len() == 4 * (iw * ih),
        canvas_w * canvas_h <= u32::MAX,
    ensures
        l.name@ == name@,
        l.visible,
        l.offset == (0i32, 0i32),
        l.dirty_cells@.len() == 0,
        l.full_upload,
        l.fits(canvas_w as int, canvas_h as int),
        l.tiles@ == Seq::new(
            (canvas_w * canvas_h) as nat,
            |i: int| imported_tile(iw as int, ih as int, px@, i % (canvas_w as int), i / (canvas_w as int)),
        ),
        forall|x: int, y: int|
            0 <= x < canvas_w && 0 <= y < canvas_h ==> {
                let t = #[trigger] l.tiles@[cell_index(canvas_w as int, x, y)];
                let o = 4 * (y * iw + x);
                if x < iw && y < ih {
                    &&& px@[o + 3] == 0 ==> t == Tile {
                        glyph: 0,
                        fg: rgba(0, 0, 0, 255),
                        bg: transparent_bg_spec(),
                    }
                    &&& px@[o + 3] != 0 ==> t.glyph == shade_glyph(px@[o + 3]) && t.fg == rgba(
                        px@[o],
                        px@[o + 1],
                        px@[o + 2],
                        255,
                    ) && t.bg == rgba(0, 0, 0, 255)
                } else {
                    t == blank_tile()
                }
            },
{
    let ghost cw = canvas_w as int;
    let ghost f = |i: int| imported_tile(iw as int, ih as int, px@, i % cw, i / cw);
    let mut tiles: Vec<Tile> = Vec::new();
    let mut y: u32 = 0;
    while y < canvas_h
        invariant
            px@.len() == 4 * (iw * ih),
            canvas_w * canvas_h <= u32::MAX,
            cw == canvas_w,
            f == (|i: int| imported_tile(iw as int, ih as int, px@, i % cw, i / cw)),
            y <= canvas_h,
            tiles@ == Seq::new((y * canvas_w) as nat, f),
        decreases canvas_h - y,
    {
        let mut x: u32 = 0;
        while x < canvas_w
            invariant
                px@.len() == 4 * (iw * ih),
                canvas_w * canvas_h <= u32::MAX,
                cw == canvas_w,
                f == (|i: int| imported_tile(iw as int, ih as int, px@, i % cw, i / cw)),
                y < canvas_h,
                x <= canvas_w,
                tiles@ == Seq::new((y * canvas_w + x) as nat, f),
            decreases canvas_w - x,
        {
            let t = if x < iw && y < ih {
                proof {
                    lemma_cell_index_bounds(iw as int, ih as int, x as int, y as int);
                }
                let plen = px.len();
                assert(4 * (y * iw + x) + 4 <= plen);
                let o: usize = 4 * ((y as usize) * (iw as usize) + (x as usize));
                tile_for_pixel(px[o], px[o + 1], px[o + 2], px[o + 3])
            } else {
                Tile::default()
            };
            proof {
                lemma_cell_index_bounds(cw, canvas_h as int, x as int, y as int);
                let i = y * canvas_w + x;
                lemma_cell_of_index(cw, canvas_h as int, i);
                crate::grid::lemma_cell_index_injective(cw, x as int, y as int, i % cw, i / cw);
                assert(t == f(i));
            }
            tiles.push(t);
            assert(tiles@ =~= Seq::new((y * canvas_w + x + 1) as nat, f));
            x = x + 1;
        }
        proof {
            assert((y + 1) * canvas_w == y * canvas_w + canvas_w) by (nonlinear_arith);
        }
        y = y + 1;
    }
    proof {
        assert(canvas_h * canvas_w == canvas_w * canvas_h) by (nonlinear_arith);
        assert forall|x: int, y: int| 0 <= x < canvas_w && 0 <= y < canvas_h implies
            #[trigger] tiles@[cell_index(cw, x, y)] == imported_tile(iw as int, ih as int, px@, x, y) by {
            lemma_cell_index_bounds(cw, canvas_h as int, x, y);
            let i = cell_index(cw, x, y);
            lemma_cell_of_index(cw, canvas_h as int, i);
            crate::grid::lemma_cell_index_injective(cw, x, y, i % cw, i / cw);
        }
    }
    Layer {
        name,
        visible: true,
        tiles,
        offset: (0, 0),
        dirty_cells: Vec::new(),
        full_upload: true,
    }
}

/// Decodes a picture file with the `image` crate and makes it a layer; see
/// [`layer_from_rgba`]. Fails when the bytes do not decode.
pub fn layer_from_image_bytes(name: String, bytes: &[u8], canvas_w: u32, canvas_h: u32) -> (r: Result<Layer, image::ImageError>)
    requires
        canvas_w * canvas_h <= u32::MAX,
    ensures
        match r {
            Ok(l) => match decoded_image(bytes@) {
                Some((iw, ih, px)) => {
                    &&& l.name@ == name@
                    &&& l.visible
                    &&& l.offset == (0i32, 0i32)
                    &&& l.dirty_cells@.len() == 0
                    &&& l.full_upload
                    &&& l.fits(canvas_w as int, canvas_h as int)
                    &&& l.tiles@ == Seq::new(
                        (canvas_w * canvas_h) as nat,
                        |i: int| imported_tile(iw as int, ih as int, px, i % (canvas_w as int), i / (canvas_w as int)),
                    )
                },
                None => false,
            },
            Err(_) => decoded_image(bytes@) is None,
        },
{
    match decode_image_rgba8(bytes) {
        Ok((iw, ih, px)) => Ok(layer_from_rgba(name, iw, ih, px.as_slice(), canvas_w, canvas_h)),
        Err(e) => Err(e),
    }
}

} // verus!
