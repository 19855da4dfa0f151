use vstd::prelude::*;

use crate::document::Document;
use crate::grid::{cell_index, lemma_cell_index_bounds, lemma_cell_index_injective};
use crate::history::{
    closed_future, closed_past, recorded, record_post, same_settings, CellChange, History,
};
use crate::layer::{is_empty_tile, is_empty_tile_spec, Layer};
use crate::selection::SelectionMask;
use crate::tile::{transparent_bg, transparent_bg_spec, Tile};
use crate::tools::kinds::ToolKind;

verus! {

/// `d1` is `d0` with cell `(x, y)` of layer `li` set to `t`.
pub open spec fn cell_written(d0: Document, d1: Document, li: int, x: int, y: int, t: Tile) -> bool {
    &&& same_settings(d0, d1)
    &&& d1.active_layer == d0.active_layer
    &&& d1.resources_generation == d0.resources_generation
    &&& d1.layers@.len() == d0.layers@.len()
    &&& forall|i: int|
        0 <= i < d0.layers@.len() ==> {
            let a = #[trigger] d1.layers@[i];
            let b = d0.layers@[i];
            if i == li {
                &&& a.name == b.name
                &&& a.visible == b.visible
                &&& a.offset == b.offset
                &&& a.full_upload == b.full_upload
                &&& a.tiles@ == b.tiles@.update(cell_index(d0.width as int, x, y), t)
            } else {
                a == b
            }
        }
}

/// The tile of layer `li` at cell `(x, y)`.
pub open spec fn tile_at(d: Document, li: int, x: int, y: int) -> Tile {
    d.layers@[li].tiles@[cell_index(d.width as int, x, y)]
}

/// Writes `new_tile` at cell `(x, y)` of layer `layer_index` and records the
/// change; nothing happens when there is no such layer or the cell already
/// holds the tile.
pub fn write_cell(
    document: &mut Document,
    history: &mut History,
    layer_index: usize,
    w: u32,
    x: u32,
    y: u32,
    new_tile: Tile,
)
    requires
        old(document).wf(),
        old(history).wf(),
        old(history).fits(old(document).width as int, old(document).height as int),
        w == old(document).width,
        x < old(document).width,
        y < old(document).height,
    ensures
        final(document).wf(),
        final(history).wf(),
        final(history).fits(final(document).width as int, final(document).height as int),
        if layer_index >= old(document).layers@.len() || tile_at(
            *old(document),
            layer_index as int,
            x as int,
            y as int,
        ) == new_tile {
            *final(document) == *old(document) && *final(history) == *old(history)
        } else {
            &&& cell_written(
                *old(document),
                *final(document),
                layer_index as int,
                x as int,
                y as int,
                new_tile,
            )
            &&& record_post(
                *old(history),
                CellChange {
                    layer: layer_index,
                    x,
                    y,
                    before: tile_at(*old(document), layer_index as int, x as int, y as int),
                    after: new_tile,
                },
                *final(history),
            )
        },
{
    if layer_index >= document.layers.len() {
        return;
    }
    proof {
        lemma_cell_index_bounds(w as int, document.height as int, x as int, y as int);
        assert(document.layers@[layer_index as int].fits(w as int, document.height as int));
    }
    let before = document.layers[layer_index].get(w, x, y);
    if before == new_tile {
        return;
    }
    let ghost d0 = *document;
    document.layers[layer_index].set(w, x, y, new_tile);
    proof {
        assert forall|i: int| 0 <= i < document.layers@.len() implies (#[trigger] document.layers@[i]).fits(
            w as int,
            document.height as int,
        ) by {
            if i != layer_index {
                assert(document.layers@[i] == d0.layers@[i]);
            }
        }
    }
    history.record(CellChange { layer: layer_index, x, y, before, after: new_tile });
}

/// The tile the eyedropper picks among the first `n` layers: the topmost
/// visible layer whose tile at `(x, y)` is not empty.
pub open spec fn picked_tile(layers: Seq<Layer>, width: int, x: int, y: int, n: int) -> Option<Tile>
    decreases n,
{
    if n <= 0 {
        None
    } else {
        let l = layers[n - 1];
        let t = l.tiles@[cell_index(width, x, y)];
        if l.visible && !is_empty_tile_spec(t) {
            Some(t)
        } else {
            picked_tile(layers, width, x, y, n - 1)
        }
    }
}

/// The eyedropper's choice among the first `n` layers is the tile at
/// `(x, y)` of the topmost layer that is visible and not empty there: it
/// comes from a visible layer, it is not empty, and every layer above that
/// one is hidden or empty at the cell. When there is no such layer nothing
/// is picked. Hidden layers never supply the pick.
pub proof fn lemma_picked_tile_topmost_visible(layers: Seq<Layer>, width: int, x: int, y: int, n: int)
    requires
        0 <= n <= layers.len(),
    ensures
        match picked_tile(layers, width, x, y, n) {
            Some(t) => exists|k: int|
                0 <= k < n && (#[trigger] layers[k]).visible && layers[k].tiles@[cell_index(width, x, y)]
                    == t && !is_empty_tile_spec(t) && forall|j: int|
                    k < j < n ==> !(#[trigger] layers[j]).visible || is_empty_tile_spec(
                        layers[j].tiles@[cell_index(width, x, y)],
                    ),
            None => forall|j: int|
                0 <= j < n ==> !(#[trigger] layers[j]).visible || is_empty_tile_spec(
                    layers[j].tiles@[cell_index(width, x, y)],
                ),
        },
    decreases n,
{
    if n > 0 {
        lemma_picked_tile_topmost_visible(layers, width, x, y, n - 1);
        if layers[n - 1].visible && !is_empty_tile_spec(layers[n - 1].tiles@[cell_index(width, x, y)]) {
            assert(layers[n - 1].visible);
        } else {
            match picked_tile(layers, width, x, y, n - 1) {
                Some(p) => {
                    let k = choose|k: int|
                        0 <= k < n - 1 && (#[trigger] layers[k]).visible && layers[k].tiles@[cell_index(
                            width,
                            x,
                            y,
                        )] == p && !is_empty_tile_spec(p) && forall|j: int|
                            k < j < n - 1 ==> !(#[trigger] layers[j]).visible || is_empty_tile_spec(
                                layers[j].tiles@[cell_index(width, x, y)],
                            );
                    assert(layers[k].visible);
                },
                None => {},
            }
        }
    }
}

/// The eyedropper, as [`apply`] runs it on a cell of the canvas, leaves the
/// history alone and either takes glyph and foreground from the topmost
/// visible layer that is not empty at the cell (and its background unless
/// that is transparent), or, when every layer is hidden or empty there,
/// changes nothing.
pub proof fn lemma_eyedropper_reads_visible_layers(
    d0: Document,
    h0: History,
    x: u32,
    y: u32,
    d1: Document,
    h1: History,
)
    requires
        apply_post(d0, h0, x, y, d1, h1),
        d0.active_tool == ToolKind::Eyedropper,
        x < d0.width,
        y < d0.height,
    ensures
        h1 == h0,
        d1.layers == d0.layers,
        (exists|k: int|
            0 <= k < d0.layers@.len() && (#[trigger] d0.layers@[k]).visible && ({
                let t = d0.layers@[k].tiles@[cell_index(d0.width as int, x as int, y as int)];
                &&& !is_empty_tile_spec(t)
                &&& d1.selected_glyph == t.glyph
                &&& d1.fg == t.fg
                &&& d1.bg == if t.bg != transparent_bg_spec() {
                    t.bg
                } else {
                    d0.bg
                }
            }) && forall|j: int|
                k < j < d0.layers@.len() ==> !(#[trigger] d0.layers@[j]).visible || is_empty_tile_spec(
                    d0.layers@[j].tiles@[cell_index(d0.width as int, x as int, y as int)],
                )) || ((forall|j: int|
            0 <= j < d0.layers@.len() ==> !(#[trigger] d0.layers@[j]).visible || is_empty_tile_spec(
                d0.layers@[j].tiles@[cell_index(d0.width as int, x as int, y as int)],
            )) && d1 == d0),
{
    lemma_picked_tile_topmost_visible(
        d0.layers@,
        d0.width as int,
        x as int,
        y as int,
        d0.layers@.len() as int,
    );
}

/// The tile the pencil paints.
pub open spec fn pencil_tile(d: Document) -> Tile {
    Tile { glyph: d.selected_glyph, fg: d.fg, bg: d.bg }
}

/// The tile the eraser paints.
pub open spec fn eraser_tile(d: Document) -> Tile {
    Tile { glyph: 0, fg: d.fg, bg: transparent_bg_spec() }
}

/// What [`apply`] does to the document and the history at cell `(x, y)`.
pub open spec fn apply_post(d0: Document, h0: History, x: u32, y: u32, d1: Document, h1: History) -> bool {
    if x >= d0.width || y >= d0.height {
        d1 == d0 && h1 == h0
    } else {
        match d0.active_tool {
            ToolKind::RectSelect => d1 == d0 && h1 == h0,
            ToolKind::Pencil => written_post(d0, h0, x, y, pencil_tile(d0), d1, h1),
            ToolKind::Eraser => written_post(d0, h0, x, y, eraser_tile(d0), d1, h1),
            ToolKind::Eyedropper => {
                &&& h1 == h0
                &&& match picked_tile(d0.layers@, d0.width as int, x as int, y as int, d0.layers@.len() as int) {
                    None => d1 == d0,
                    Some(t) => d1 == Document {
                        selected_glyph: t.glyph,
                        fg: t.fg,
                        bg: if t.bg != transparent_bg_spec() {
                            t.bg
                        } else {
                            d0.bg
                        },
                        ..d0
                    },
                }
            },
        }
    }
}

/// `t` written at `(x, y)` of the active layer, as [`write_cell`] does it.
pub open spec fn written_post(d0: Document, h0: History, x: u32, y: u32, t: Tile, d1: Document, h1: History) -> bool {
    let li = d0.active_layer as int;
    if tile_at(d0, li, x as int, y as int) == t {
        d1 == d0 && h1 == h0
    } else {
        &&& cell_written(d0, d1, li, x as int, y as int, t)
        &&& record_post(
            h0,
            CellChange {
                layer: d0.active_layer,
                x,
                y,
                before: tile_at(d0, li, x as int, y as int),
                after: t,
            },
            h1,
        )
    }
}

/// Applies the active tool at cell `(x, y)`: the pencil paints the current
/// glyph and colors on the active layer, the eraser paints an empty tile,
/// the eyedropper takes glyph and colors from the topmost visible non-empty
/// tile (keeping the background color when that tile's is transparent).
/// Cells outside the canvas are ignored; selection is not made here.
pub fn apply(document: &mut Document, history: &mut History, x: u32, y: u32)
    requires
        old(document).wf(),
        old(history).wf(),
        old(history).fits(old(document).width as int, old(document).height as int),
    ensures
        final(document).wf(),
        final(history).wf(),
        final(history).fits(final(document).width as int, final(document).height as int),
        apply_post(*old(document), *old(history), x, y, *final(document), *final(history)),
{
    if x >= document.width || y >= document.height {
        return;
    }
    let w = document.width;
    let layer_index = document.active_layer;
    match document.active_tool {
        ToolKind::RectSelect => {},
        ToolKind::Pencil => {
            let new_tile = Tile { glyph: document.selected_glyph, fg: document.fg, bg: document.bg };
            write_cell(document, history, layer_index, w, x, y, new_tile);
        },
        ToolKind::Eraser => {
            let new_tile = Tile { glyph: 0, fg: document.fg, bg: transparent_bg() };
            write_cell(document, history, layer_index, w, x, y, new_tile);
        },
        ToolKind::Eyedropper => {
            proof {
                lemma_cell_index_bounds(w as int, document.height as int, x as int, y as int);
            }
            let mut picked: Option<Tile> = None;
            let mut i = document.layers.len();
            while i > 0
                invariant
                    i <= document.layers@.len(),
                    document.wf(),
                    w == document.width,
                    x < document.width,
                    y < document.height,
                    cell_index(w as int, x as int, y as int) < w * document.height,
                    y * w + x <= u32::MAX,
                    picked_tile(document.layers@, w as int, x as int, y as int, document.layers@.len() as int)
                        == match picked {
                        Some(t) => Some(t),
                        None => picked_tile(document.layers@, w as int, x as int, y as int, i as int),
                    },
                    picked is Some ==> i == 0,
                decreases i,
            {
                i = i - 1;
                let layer = &document.layers[i];
                if layer.visible {
                    assert(layer.fits(w as int, document.height as int));
                    let t = layer.get(w, x, y);
                    if !is_empty_tile(t) {
                        picked = Some(t);
                        i = 0;
                    }
                }
            }
            if let Some(t) = picked {
                document.selected_glyph = t.glyph;
                document.fg = t.fg;
                if t.bg != transparent_bg() {
                    document.bg = t.bg;
                }
            }
        },
    }
}


/// The changes that writing `t` at `cells` of layer `li` (tiles `tiles`)
/// records, in order: one per cell whose tile differs from `t`.
pub open spec fn changes_for(tiles: Seq<Tile>, li: usize, width: int, cells: Seq<(u32, u32)>, t: Tile) -> Seq<CellChange>
    decreases cells.len(),
{
    if cells.len() == 0 {
        Seq::empty()
    } else {
        let prev = changes_for(tiles, li, width, cells.drop_last(), t);
        let c = cells.last();
        let before = tiles[cell_index(width, c.0 as int, c.1 as int)];
        if before == t {
            prev
        } else {
            prev.push(CellChange { layer: li, x: c.0, y: c.1, before, after: t })
        }
    }
}

/// The stroke `s` after each change of `cs` is recorded into it in order.
pub open spec fn recorded_all(s: Seq<CellChange>, cs: Seq<CellChange>) -> Seq<CellChange>
    decreases cs.len(),
{
    if cs.len() == 0 {
        s
    } else {
        recorded(recorded_all(s, cs.drop_last()), cs.last())
    }
}

/// What [`fill_selection`] and [`erase_selection`] do with tile `t`: every
/// selected cell of the active layer gets `t`, and the changes are recorded
/// into the open stroke (or a new one), which is then closed.
pub open spec fn selection_written(d0: Document, h0: History, t: Tile, d1: Document, h1: History) -> bool {
    match d0.selection {
        None => d1 == d0 && h1 == h0,
        Some(m) => if m.is_empty_spec() {
            d1 == d0 && h1 == h0
        } else {
            let li = d0.active_layer as int;
            let cs = changes_for(
                d0.layers@[li].tiles@,
                d0.active_layer,
                d0.width as int,
                m.selected_cells(),
                t,
            );
            let s1 = recorded_all(stroke_or_empty(h0), cs);
            &&& layer_cells_written(d0, d1, li, m, t)
            &&& h1.stroke() is None
            &&& h1.past() == closed_past(h0.past(), Some(s1))
            &&& h1.future() == closed_future(h0.future(), Some(s1))
        },
    }
}

/// The open stroke, or an empty one.
pub open spec fn stroke_or_empty(h: History) -> Seq<CellChange> {
    match h.stroke() {
        Some(s) => s,
        None => Seq::empty(),
    }
}

/// `d1` is `d0` with every cell selected in `m` set to `t` on layer `li`.
pub open spec fn layer_cells_written(d0: Document, d1: Document, li: int, m: SelectionMask, t: Tile) -> bool {
    &&& same_settings(d0, d1)
    &&& d1.active_layer == d0.active_layer
    &&& d1.resources_generation == d0.resources_generation
    &&& d1.layers@.len() == d0.layers@.len()
    &&& forall|i: int|
        0 <= i < d0.layers@.len() && i != li ==> #[trigger] d1.layers@[i] == d0.layers@[i]
    &&& d1.layers@[li].name == d0.layers@[li].name
    &&& d1.layers@[li].visible == d0.layers@[li].visible
    &&& d1.layers@[li].offset == d0.layers@[li].offset
    &&& d1.layers@[li].full_upload == d0.layers@[li].full_upload
    &&& forall|x: int, y: int|
        0 <= x < d0.width && 0 <= y < d0.height ==> #[trigger] tile_at(d1, li, x, y) == if m.has(x, y) {
            t
        } else {
            tile_at(d0, li, x, y)
        }
}

/// Fills the selected cells of the active layer with the current glyph and
/// colors, as one undoable stroke; nothing happens without a selection.
pub fn fill_selection(document: &mut Document, history: &mut History)
    requires
        old(document).wf(),
        old(history).wf(),
        old(history).fits(old(document).width as int, old(document).height as int),
    ensures
        final(document).wf(),
        final(history).wf(),
        final(history).fits(final(document).width as int, final(document).height as int),
        selection_written(
            *old(document),
            *old(history),
            pencil_tile(*old(document)),
            *final(document),
            *final(history),
        ),
{
    let t = Tile { glyph: document.selected_glyph, fg: document.fg, bg: document.bg };
    run_on_selection(document, history, t);
}

/// Erases the selected cells of the active layer (glyph 0 on the transparent
/// background), as one undoable stroke; nothing happens without a selection.
pub fn erase_selection(document: &mut Document, history: &mut History)
    requires
        old(document).wf(),
        old(history).wf(),
        old(history).fits(old(document).width as int, old(document).height as int),
    ensures
        final(document).wf(),
        final(history).wf(),
        final(history).fits(final(document).width as int, final(document).height as int),
        selection_written(
            *old(document),
            *old(history),
            eraser_tile(*old(document)),
            *final(document),
            *final(history),
        ),
{
    let t = Tile { glyph: 0, fg: document.fg, bg: transparent_bg() };
    run_on_selection(document, history, t);
}

fn run_on_selection(document: &mut Document, history: &mut History, new_tile: Tile)
    requires
        old(document).wf(),
        old(history).wf(),
        old(history).fits(old(document).width as int, old(document).height as int),
    ensures
        final(document).wf(),
        final(history).wf(),
        final(history).fits(final(document).width as int, final(document).height as int),
        selection_written(*old(document), *old(history), new_tile, *final(document), *final(history)),
{
    let cells = match &document.selection {
        Some(mask) => mask.iter_cells(),
        None => {
            return;
        },
    };
    let ghost m = document.selection.unwrap();
    if cells.len() == 0 {
        proof {
            assert forall|x: int, y: int| !#[trigger] m.has(x, y) by {
                if m.has(x, y) {
                    assert(cells@.contains((x as u32, y as u32)));
                }
            }
        }
        return;
    }
    proof {
        assert(m.has(cells@[0].0 as int, cells@[0].1 as int));
    }
    let ghost d0 = *document;
    let ghost h0 = *history;
    let w = document.width;
    let layer_index = document.active_layer;
    let ghost li = layer_index as int;
    let ghost t0 = d0.layers@[li].tiles@;
    history.begin_stroke();
    let ghost s0 = stroke_or_empty(h0);
    let mut k: usize = 0;
    while k < cells.len()
        invariant
            k <= cells@.len(),
            document.wf(),
            history.wf(),
            history.fits(d0.width as int, d0.height as int),
            d0.wf(),
            w == d0.width,
            layer_index == d0.active_layer,
            li == layer_index,
            t0 == d0.layers@[li].tiles@,
            d0.selection == Some(m),
            forall|j: int|
                0 <= j < cells@.len() ==> m.has((#[trigger] cells@[j]).0 as int, cells@[j].1 as int),
            forall|a: int, b: int|
                0 <= a < b < cells@.len() ==> cell_index(
                    m.w as int,
                    (#[trigger] cells@[a]).0 as int,
                    cells@[a].1 as int,
                ) < cell_index(m.w as int, (#[trigger] cells@[b]).0 as int, cells@[b].1 as int),
            same_settings(d0, *document),
            document.active_layer == d0.active_layer,
            document.resources_generation == d0.resources_generation,
            document.layers@.len() == d0.layers@.len(),
            forall|i: int|
                0 <= i < d0.layers@.len() && i != li ==> #[trigger] document.layers@[i]
                    == d0.layers@[i],
            document.layers@[li].name == d0.layers@[li].name,
            document.layers@[li].visible == d0.layers@[li].visible,
            document.layers@[li].offset == d0.layers@[li].offset,
            document.layers@[li].full_upload == d0.layers@[li].full_upload,
            forall|x: int, y: int|
                0 <= x < d0.width && 0 <= y < d0.height ==> #[trigger] tile_at(*document, li, x, y)
                    == if exists|j: int| 0 <= j < k && #[trigger] cells@[j] == (x as u32, y as u32) {
                    new_tile
                } else {
                    tile_at(d0, li, x, y)
                },
            history.past() == h0.past(),
            history.future() == h0.future(),
            history.stroke() == Some(
                recorded_all(
                    s0,
                    changes_for(t0, layer_index, w as int, cells@.subrange(0, k as int), new_tile),
                ),
            ),
        decreases cells@.len() - k,
    {
        let (x, y) = cells[k];
        let ghost dk = *document;
        let ghost hk = *history;
        let ghost sub = cells@.subrange(0, k + 1);
        proof {
            assert(sub.drop_last() =~= cells@.subrange(0, k as int));
            assert(sub.last() == (x, y));
            // the cell has not been written yet
            if exists|j: int| 0 <= j < k && #[trigger] cells@[j] == (x, y) {
                let j = choose|j: int| 0 <= j < k && #[trigger] cells@[j] == (x, y);
                assert(cell_index(m.w as int, cells@[j].0 as int, cells@[j].1 as int) < cell_index(
                    m.w as int,
                    cells@[k as int].0 as int,
                    cells@[k as int].1 as int,
                ));
            }
            assert(tile_at(dk, li, x as int, y as int) == tile_at(d0, li, x as int, y as int));
            lemma_cell_index_bounds(w as int, d0.height as int, x as int, y as int);
        }
        write_cell(document, history, layer_index, w, x, y, new_tile);
        proof {
            let csk = changes_for(t0, layer_index, w as int, cells@.subrange(0, k as int), new_tile);
            let csk1 = changes_for(t0, layer_index, w as int, sub, new_tile);
            let before = t0[cell_index(w as int, x as int, y as int)];
            assert(before == tile_at(d0, li, x as int, y as int));
            if before == new_tile {
                assert(csk1 == csk);
            } else {
                let ch = CellChange { layer: layer_index, x, y, before, after: new_tile };
                assert(csk1 == csk.push(ch));
                assert(csk1.drop_last() =~= csk);
                assert(recorded_all(s0, csk1) == recorded(recorded_all(s0, csk), ch));
            }
        }
        proof {
            assert forall|qx: int, qy: int|
                0 <= qx < d0.width && 0 <= qy < d0.height implies #[trigger] tile_at(
                    *document,
                    li,
                    qx,
                    qy,
                ) == if exists|j: int| 0 <= j < k + 1 && #[trigger] cells@[j] == (qx as u32, qy as u32) {
                    new_tile
                } else {
                    tile_at(d0, li, qx, qy)
                } by {
                lemma_cell_index_bounds(w as int, d0.height as int, qx, qy);
                if qx == x && qy == y {
                    assert(cells@[k as int] == (qx as u32, qy as u32));
                } else {
                    if cell_index(w as int, qx, qy) == cell_index(w as int, x as int, y as int) {
                        lemma_cell_index_injective(w as int, qx, qy, x as int, y as int);
                    }
                    assert(tile_at(*document, li, qx, qy) == tile_at(dk, li, qx, qy));
                    if exists|j: int| 0 <= j < k + 1 && #[trigger] cells@[j] == (qx as u32, qy as u32) {
                        let j = choose|j: int| 0 <= j < k + 1 && #[trigger] cells@[j] == (qx as u32, qy as u32);
                        assert(j < k);
                    }
                }
            }
        }
        k = k + 1;
    }
    let ghost hb = *history;
    history.end_stroke();
    proof {
        assert(cells@.subrange(0, cells@.len() as int) =~= cells@);
        assert forall|x: int, y: int|
            0 <= x < d0.width && 0 <= y < d0.height implies (exists|j: int|
                0 <= j < cells@.len() && #[trigger] cells@[j] == (x as u32, y as u32)) == m.has(x, y) by {
            if m.has(x, y) {
                assert(cells@.contains((x as u32, y as u32)));
            }
        }
        assert(!m.is_empty_spec());
    }
}

} // verus!
