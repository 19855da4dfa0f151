//! What the canvas renderer is handed each frame, and how tiles become
//! texture bytes.
use vstd::prelude::*;

use crate::document::Document;
use crate::grid::{cell_index, lemma_cell_index_bounds};
use crate::layer::Layer;
use crate::tile::Tile;

verus! {

/// One layer's share of a frame: its visibility and either all of its tiles
/// (a full re-upload) or the cells changed since the last frame.
pub struct LayerRenderRequest {
    pub visible: bool,
    pub full_tiles: Option<Vec<Tile>>,
    pub dirty_cells: Vec<(u32, u32, Tile)>,
}

/// The changed cells of `l`, each with its tile, in the order they were listed.
pub open spec fn dirty_with_tiles(l: Layer, w: int) -> Seq<(u32, u32, Tile)> {
    l.dirty_cells@.map_values(|p: (u32, u32)| (p.0, p.1, l.tiles@[cell_index(w, p.0 as int, p.1 as int)]))
}

/// `r` is what the renderer needs of layer `l0` on a canvas `w` cells wide,
/// and `l1` is `l0` with its bookkeeping reset.
pub open spec fn layer_request(l0: Layer, r: LayerRenderRequest, l1: Layer, w: int) -> bool {
    &&& r.visible == l0.visible
    &&& l1.same_content(&l0)
    &&& !l1.full_upload
    &&& l1.dirty_cells@.len() == 0
    &&& if l0.full_upload {
        &&& r.full_tiles matches Some(t) && t@ == l0.tiles@
        &&& r.dirty_cells@.len() == 0
    } else {
        &&& r.full_tiles is None
        &&& r.dirty_cells@ == dirty_with_tiles(l0, w)
    }
}

/// A copy of `tiles`.
fn copy_tiles(tiles: &Vec<Tile>) -> (c: Vec<Tile>)
    ensures
        c@ == tiles@,
{
    let mut c: Vec<Tile> = Vec::new();
    let mut i: usize = 0;
    while i < tiles.len()
        invariant
            i <= tiles@.len(),
            c@ == tiles@.subrange(0, i as int),
        decreases tiles@.len() - i,
    {
        c.push(tiles[i]);
        i = i + 1;
        assert(c@ =~= tiles@.subrange(0, i as int));
    }
    assert(c@ =~= tiles@);
    c
}

/// The request for one layer; takes the layer's dirty cells and its
/// full-upload flag.
fn layer_render_request(layer: &mut Layer, w: u32, h: u32) -> (r: LayerRenderRequest)
    requires
        old(layer).fits(w as int, h as int),
        w * h <= u32::MAX,
    ensures
        final(layer).fits(w as int, h as int),
        layer_request(*old(layer), r, *final(layer), w as int),
{
    let ghost l0 = *layer;
    let full_tiles = if layer.full_upload {
        Some(copy_tiles(&layer.tiles))
    } else {
        None
    };
    let mut dirty: Vec<(u32, u32, Tile)> = Vec::new();
    if !layer.full_upload {
        let mut k: usize = 0;
        while k < layer.dirty_cells.len()
            invariant
                *layer == l0,
                l0.fits(w as int, h as int),
                w * h <= u32::MAX,
                k <= l0.dirty_cells@.len(),
                dirty@ == dirty_with_tiles(l0, w as int).subrange(0, k as int),
            decreases l0.dirty_cells@.len() - k,
        {
            let (x, y) = layer.dirty_cells[k];
            proof {
                lemma_cell_index_bounds(w as int, h as int, x as int, y as int);
            }
            let t = layer.tiles[(y * w + x) as usize];
            dirty.push((x, y, t));
            k = k + 1;
            assert(dirty@ =~= dirty_with_tiles(l0, w as int).subrange(0, k as int));
        }
        assert(dirty@ =~= dirty_with_tiles(l0, w as int));
    }
    layer.full_upload = false;
    layer.dirty_cells.clear();
    LayerRenderRequest { visible: layer.visible, full_tiles, dirty_cells: dirty }
}

/// The per-layer requests of a frame, bottom layer first. Every layer's
/// dirty cells are taken and its full-upload flag cleared; a layer flagged
/// for a full upload sends all its tiles instead of its dirty cells.
pub fn layer_render_requests(document: &mut Document) -> (reqs: Vec<LayerRenderRequest>)
    requires
        old(document).wf(),
    ensures
        final(document).wf(),
        *final(document) == (Document { layers: final(document).layers, ..*old(document) }),
        final(document).layers@.len() == old(document).layers@.len(),
        reqs@.len() == old(document).layers@.len(),
        forall|i: int|
            0 <= i < reqs@.len() ==> #[trigger] layer_request(
                old(document).layers@[i],
                reqs@[i],
                final(document).layers@[i],
                old(document).width as int,
            ),
{
    let ghost d0 = *document;
    let w = document.width;
    let h = document.height;
    let mut reqs: Vec<LayerRenderRequest> = Vec::new();
    let mut i: usize = 0;
    while i < document.layers.len()
        invariant
            document.wf(),
            *document == (Document { layers: document.layers, ..d0 }),
            document.layers@.len() == d0.layers@.len(),
            w == d0.width,
            h == d0.height,
            i <= d0.layers@.len(),
            reqs@.len() == i,
            forall|j: int| i <= j < d0.layers@.len() ==> #[trigger] document.layers@[j] == d0.layers@[j],
            forall|j: int|
                0 <= j < i ==> #[trigger] layer_request(d0.layers@[j], reqs@[j], document.layers@[j], w as int),
        decreases d0.layers@.len() - i,
    {
        let ghost before = document.layers@;
        let r = layer_render_request(&mut document.layers[i], w, h);
        reqs.push(r);
        proof {
            assert forall|j: int| 0 <= j < document.layers@.len() && j != i implies document.layers@[j] == before[j] by {}
        }
        i = i + 1;
    }
    reqs
}

/// The three textures of a layer: one glyph byte per cell, and the RGBA of
/// each cell's foreground and background.
pub fn layer_texture_bytes(tiles: &[Tile]) -> (r: (Vec<u8>, Vec<u8>, Vec<u8>))
    requires
        4 * tiles@.len() <= usize::MAX,
    ensures
        r.0@.len() == tiles@.len(),
        r.1@.len() == 4 * tiles@.len(),
        r.2@.len() == 4 * tiles@.len(),
        forall|i: int| 0 <= i < tiles@.len() ==> #[trigger] r.0@[i] == tiles@[i].glyph,
        forall|i: int, c: int|
            0 <= i < tiles@.len() && 0 <= c < 4 ==> #[trigger] r.1@[4 * i + c] == tiles@[i].fg.0[c]
                && r.2@[4 * i + c] == tiles@[i].bg.0[c],
{
    let mut glyphs: Vec<u8> = Vec::new();
    let mut fgs: Vec<u8> = Vec::new();
    let mut bgs: Vec<u8> = Vec::new();
    let mut i: usize = 0;
    while i < tiles.len()
        invariant
            4 * tiles@.len() <= usize::MAX,
            i <= tiles@.len(),
            glyphs@.len() == i,
            fgs@.len() == 4 * i,
            bgs@.len() == 4 * i,
            forall|j: int| 0 <= j < i ==> #[trigger] glyphs@[j] == tiles@[j].glyph,
            forall|j: int, c: int|
                0 <= j < i && 0 <= c < 4 ==> #[trigger] fgs@[4 * j + c] == tiles@[j].fg.0[c] && bgs@[4
                    * j + c] == tiles@[j].bg.0[c],
        decreases tiles@.len() - i,
    {
        let t = tiles[i];
        glyphs.push(t.glyph);
        let mut c: usize = 0;
        while c < 4
            invariant
                0 <= c <= 4,
                i < tiles@.len(),
                t == tiles@[i as int],
                glyphs@.len() == i + 1,
                fgs@.len() == 4 * i + c,
                bgs@.len() == 4 * i + c,
                forall|j: int| 0 <= j <= i ==> #[trigger] glyphs@[j] == tiles@[j].glyph,
                forall|j: int, cc: int|
                    0 <= j < i && 0 <= cc < 4 ==> #[trigger] fgs@[4 * j + cc] == tiles@[j].fg.0[cc]
                        && bgs@[4 * j + cc] == tiles@[j].bg.0[cc],
                forall|cc: int| 0 <= cc < c ==> #[trigger] fgs@[4 * i + cc] == t.fg.0[cc] && bgs@[4 * i + cc] == t.bg.0[cc],
            decreases 4 - c,
        {
            let ghost pf = fgs@;
            let ghost pb = bgs@;
            fgs.push(t.fg.0[c]);
            bgs.push(t.bg.0[c]);
            proof {
                assert forall|cc: int| 0 <= cc < c + 1 implies #[trigger] fgs@[4 * i + cc] == t.fg.0[cc]
                    && bgs@[4 * i + cc] == t.bg.0[cc] by {
                    if cc < c {
                        assert(fgs@[4 * i + cc] == pf[4 * i + cc]);
                        assert(bgs@[4 * i + cc] == pb[4 * i + cc]);
                    }
                }
                assert forall|j: int, cc: int| 0 <= j < i && 0 <= cc < 4 implies #[trigger] fgs@[4 * j
                    + cc] == tiles@[j].fg.0[cc] && bgs@[4 * j + cc] == tiles@[j].bg.0[cc] by {
                    assert(fgs@[4 * j + cc] == pf[4 * j + cc]);
                    assert(bgs@[4 * j + cc] == pb[4 * j + cc]);
                }
            }
            c = c + 1;
        }
        proof {
            assert forall|j: int, cc: int| 0 <= j < i + 1 && 0 <= cc < 4 implies #[trigger] fgs@[4 * j
                + cc] == tiles@[j].fg.0[cc] && bgs@[4 * j + cc] == tiles@[j].bg.0[cc] by {
                if j == i {
                    assert(fgs@[4 * i + cc] == t.fg.0[cc] && bgs@[4 * i + cc] == t.bg.0[cc]);
                }
            }
        }
        i = i + 1;
    }
    (glyphs, fgs, bgs)
}

/// The font atlas as white RGBA pixels whose alpha is the glyph coverage,
/// for drawing glyphs with the UI toolkit.
pub fn atlas_rgba(mask: &[u8]) -> (px: Vec<u8>)
    requires
        4 * mask@.len() <= usize::MAX,
    ensures
        px@.len() == 4 * mask@.len(),
        forall|i: int|
            0 <= i < mask@.len() ==> #[trigger] px@[4 * i + 3] == mask@[i] && px@[4 * i] == 255 && px@[4
                * i + 1] == 255 && px@[4 * i + 2] == 255,
{
    let mut px: Vec<u8> = Vec::new();
    let mut i: usize = 0;
    while i < mask.len()
        invariant
            4 * mask@.len() <= usize::MAX,
            i <= mask@.len(),
            px@.len() == 4 * i,
            forall|j: int|
                0 <= j < i ==> #[trigger] px@[4 * j + 3] == mask@[j] && px@[4 * j] == 255 && px@[4 * j
                    + 1] == 255 && px@[4 * j + 2] == 255,
        decreases mask@.len() - i,
    {
        let ghost prev = px@;
        px.push(255);
        px.push(255);
        px.push(255);
        px.push(mask[i]);
        proof {
            assert forall|j: int| 0 <= j < i + 1 implies #[trigger] px@[4 * j + 3] == mask@[j] && px@[4
                * j] == 255 && px@[4 * j + 1] == 255 && px@[4 * j + 2] == 255 by {
                if j < i {
                    assert(px@[4 * j + 3] == prev[4 * j + 3]);
                    assert(px@[4 * j] == prev[4 * j]);
                    assert(px@[4 * j + 1] == prev[4 * j + 1]);
                    assert(px@[4 * j + 2] == prev[4 * j + 2]);
                }
            }
        }
        i = i + 1;
    }
    px
}

/// What the renderer must rebuild before drawing a frame: the font texture
/// when there is none or the font generation moved on; the layer textures
/// when the canvas size, the layer count or the layout generation changed.
pub fn rebuild_plan(
    has_font: bool,
    last_font_generation: u64,
    font_generation: u64,
    size: (u32, u32),
    layer_count: usize,
    last_layout_generation: u64,
    req_size: (u32, u32),
    req_layer_count: usize,
    layout_generation: u64,
) -> (plan: (bool, bool))
    ensures
        plan.0 == (!has_font || last_font_generation != font_generation),
        plan.1 == (size.0 != req_size.0 || size.1 != req_size.1 || layer_count != req_layer_count
            || last_layout_generation != layout_generation),
{
    (
        !has_font || last_font_generation != font_generation,
        size.0 != req_size.0 || size.1 != req_size.1 || layer_count != req_layer_count
            || last_layout_generation != layout_generation,
    )
}


/// A layer asked for twice in a row sends nothing the second time: the
/// first request took its dirty cells and its full-upload flag.
pub proof fn lemma_requests_drain(
    l0: Layer,
    r1: LayerRenderRequest,
    l1: Layer,
    r2: LayerRenderRequest,
    l2: Layer,
    w: int,
)
    requires
        layer_request(l0, r1, l1, w),
        layer_request(l1, r2, l2, w),
    ensures
        r2.full_tiles is None,
        r2.dirty_cells@.len() == 0,
        r2.visible == l0.visible,
        l2.same_content(&l0),
{
}

} // verus!
