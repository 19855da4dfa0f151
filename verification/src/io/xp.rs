//! The `.xp` drawing format. On disk it is gzipped; the body is little-endian:
//!
//! ```text
//! version    : i32
//! num_layers : i32
//! for each layer:
//!     width  : i32
//!     height : i32
//!     for x in 0..width:
//!         for y in 0..height:       // column-major
//!             glyph     : i32       // low byte = CP437 index
//!             fg_r/g/b  : u8
//!             bg_r/g/b  : u8
//! ```
//!
//! The format has no alpha channel and no layer offsets: colors are stored
//! opaque, and each layer is stored as it shows on the canvas.
use vstd::prelude::*;

use crate::document::Document;
use crate::font::FontAtlas;
use crate::grid::{cell_index, lemma_cell_index_bounds, lemma_cell_of_index};
use crate::layer::Layer;
use crate::palette::{rgba, Color};
use crate::tile::{blank_tile, Tile};
use crate::trusted::{decimal, decimal_string, gunzip_bytes, gunzip_stream, gzip_compress, gzip_compressed};

verus! {

/// The version word that `write` stores.
pub const XP_VERSION: i32 = -1;

/// The most layers a readable file may hold.
pub const XP_MAX_LAYERS: i32 = 64;

/// The four little-endian bytes of `v`.
pub open spec fn le32(v: u32) -> Seq<u8> {
    seq![
        (v % 256) as u8,
        ((v / 256) % 256) as u8,
        ((v / 65536) % 256) as u8,
        ((v / 16777216) % 256) as u8,
    ]
}

/// The unsigned word stored little-endian at `b[p..p + 4]`.
pub open spec fn u32_at(b: Seq<u8>, p: int) -> int {
    b[p] + 256 * b[p + 1] + 65536 * b[p + 2] + 16777216 * b[p + 3]
}

/// The signed (two's complement) word stored little-endian at `b[p..p + 4]`.
pub open spec fn i32_at(b: Seq<u8>, p: int) -> int {
    let u = u32_at(b, p);
    if u < 0x8000_0000 {
        u
    } else {
        u - 0x1_0000_0000
    }
}

/// The two's complement bits of `v`.
pub open spec fn i32_bits(v: i32) -> u32 {
    if v >= 0 {
        v as u32
    } else {
        (v + 0x1_0000_0000) as u32
    }
}

proof fn lemma_le32(v: u32)
    ensures
        le32(v).len() == 4,
        u32_at(le32(v), 0) == v,
{
    assert(v == (v % 256) + 256 * ((v / 256) % 256) + 65536 * ((v / 65536) % 256) + 16777216 * ((
    v / 16777216) % 256)) by (bit_vector);
}

/// `a` is `q` times `d` plus `r`, with `r` a remainder: so `q` and `r` are
/// `a / d` and `a % d`.
proof fn lemma_div_mod(a: int, d: int, q: int, r: int)
    requires
        0 < d,
        0 <= r < d,
        a == q * d + r,
    ensures
        a / d == q,
        a % d == r,
{
    vstd::arithmetic::div_mod::lemma_fundamental_div_mod_converse(a, d, q, r);
}

/// A column-major index `x * h + y` of a `w` x `h` grid is below `w * h`.
proof fn lemma_col_major_bound(w: int, h: int, x: int, y: int)
    requires
        0 <= x < w,
        0 <= y < h,
    ensures
        0 <= x * h + y < w * h,
        x * h + y + 1 <= w * h,
{
    assert(0 <= x * h) by (nonlinear_arith)
        requires
            0 <= x,
            0 <= h,
    ;
    assert(x * h + h <= w * h) by (nonlinear_arith)
        requires
            x + 1 <= w,
            0 <= h,
    ;
}

/// Appending the block `blk` of length `l` to the first `k * l` values of
/// `f` gives the first `(k + 1) * l`, when `f` continues with `blk`.
proof fn lemma_seq_new_block<A>(f: spec_fn(int) -> A, blk: Seq<A>, k: int, l: int)
    requires
        0 <= k,
        0 < l,
        blk.len() == l,
        forall|j: int| k * l <= j < k * l + l ==> #[trigger] f(j) == blk[j - k * l],
    ensures
        (k + 1) * l == k * l + l,
        Seq::new(((k + 1) * l) as nat, f) =~= Seq::new((k * l) as nat, f) + blk,
{
    assert((k + 1) * l == k * l + l) by (nonlinear_arith);
    assert(0 <= k * l) by (nonlinear_arith)
        requires
            0 <= k,
            0 < l,
    ;
}

/// Appends the little-endian bytes of `v`.
fn push_le32(out: &mut Vec<u8>, v: u32)
    ensures
        final(out)@ == old(out)@ + le32(v),
{
    out.push((v % 256) as u8);
    out.push(((v / 256) % 256) as u8);
    out.push(((v / 65536) % 256) as u8);
    out.push(((v / 16777216) % 256) as u8);
    assert(final(out)@ =~= old(out)@ + le32(v));
}

/// The unsigned little-endian word at `b[p..p + 4]`.
fn read_u32(b: &[u8], p: usize) -> (r: u32)
    requires
        p + 4 <= b@.len(),
    ensures
        r == u32_at(b@, p as int),
{
    b[p] as u32 + (b[p + 1] as u32) * 256 + (b[p + 2] as u32) * 65536 + (b[p + 3] as u32)
        * 16777216
}

/// The signed little-endian word at `b[p..p + 4]`.
fn read_i32(b: &[u8], p: usize) -> (r: i32)
    requires
        p + 4 <= b@.len(),
    ensures
        r == i32_at(b@, p as int),
{
    let u = read_u32(b, p);
    if u < 0x8000_0000 {
        u as i32
    } else {
        ((u as i64) - 0x1_0000_0000) as i32
    }
}

/// The ten bytes that store a tile: the glyph as a little-endian word, then
/// the red, green and blue of the foreground and of the background.
pub open spec fn cell_bytes(t: Tile) -> Seq<u8> {
    le32(t.glyph as u32) + seq![t.fg.0[0], t.fg.0[1], t.fg.0[2], t.bg.0[0], t.bg.0[1], t.bg.0[2]]
}

/// The tile that `layer` shows at canvas cell `(x, y)` of a `w` x `h`
/// canvas: the buffer tile its offset brings there, or a blank tile where
/// the shifted buffer does not reach.
pub open spec fn shown_tile(layer: Layer, w: int, h: int, x: int, y: int) -> Tile {
    let lx = x - layer.offset.0;
    let ly = y - layer.offset.1;
    if 0 <= lx < w && 0 <= ly < h {
        layer.tiles@[cell_index(w, lx, ly)]
    } else {
        blank_tile()
    }
}

/// The cells of a stored layer: the tile shown at column-major cell
/// `k = x * h + y` fills bytes `10 * k .. 10 * k + 10`.
pub open spec fn cells_bytes(layer: Layer, w: int, h: int) -> Seq<u8> {
    Seq::new(
        (10 * (w * h)) as nat,
        |j: int| cell_bytes(shown_tile(layer, w, h, (j / 10) / h, (j / 10) % h))[j % 10],
    )
}

/// The length of a stored `w` x `h` layer.
pub open spec fn layer_len(w: int, h: int) -> int {
    8 + 10 * (w * h)
}

/// A stored layer: its width, its height and its cells.
pub open spec fn layer_bytes(layer: Layer, w: int, h: int) -> Seq<u8> {
    le32(w as u32) + le32(h as u32) + cells_bytes(layer, w, h)
}

/// The body of a file for `layers` on a `w` x `h` canvas: version, layer
/// count, then each layer in turn, all of length `layer_len(w, h)`.
pub open spec fn xp_bytes(layers: Seq<Layer>, w: int, h: int) -> Seq<u8> {
    let l = layer_len(w, h);
    le32(i32_bits(XP_VERSION)) + le32(layers.len() as u32) + Seq::new(
        (layers.len() * l) as nat,
        |j: int| layer_bytes(layers[j / l], w, h)[j % l],
    )
}

/// `write` can store these layers: the canvas sizes and the layer count fit
/// the format's words, and every offset keeps the shifted coordinates within
/// 32-bit signed arithmetic.
pub open spec fn writable(layers: Seq<Layer>, w: int, h: int) -> bool {
    &&& 1 <= w <= i32::MAX
    &&& 1 <= h <= i32::MAX
    &&& w * h <= u32::MAX
    &&& layers.len() <= u32::MAX
    &&& forall|i: int|
        0 <= i < layers.len() ==> {
            &&& (#[trigger] layers[i]).tiles@.len() == w * h
            &&& (w - 1) - layers[i].offset.0 <= i32::MAX
            &&& (h - 1) - layers[i].offset.1 <= i32::MAX
        }
}

/// Whether `document` can be written as a `.xp` file: its size and every
/// layer's offset keep the stored numbers within `i32`.
pub fn check_writable(document: &Document) -> (b: bool)
    requires
        document.wf(),
    ensures
        b == writable(document.layers@, document.width as int, document.height as int),
{
    let w = document.width;
    let h = document.height;
    if w > 0x7fff_ffffu32 || h > 0x7fff_ffffu32 || document.layers.len() as u64 > 0xffff_ffffu64 {
        return false;
    }
    let mut i: usize = 0;
    while i < document.layers.len()
        invariant
            document.wf(),
            w == document.width,
            h == document.height,
            w <= i32::MAX,
            h <= i32::MAX,
            i <= document.layers@.len(),
            forall|j: int|
                0 <= j < i ==> {
                    &&& (w - 1) - (#[trigger] document.layers@[j]).offset.0 <= i32::MAX
                    &&& (h - 1) - document.layers@[j].offset.1 <= i32::MAX
                },
        decreases document.layers@.len() - i,
    {
        let off = document.layers[i].offset;
        let dx: i64 = (w as i64 - 1) - off.0 as i64;
        let dy: i64 = (h as i64 - 1) - off.1 as i64;
        if dx > 0x7fff_ffffi64 || dy > 0x7fff_ffffi64 {
            return false;
        }
        i = i + 1;
    }
    proof {
        assert forall|j: int| 0 <= j < document.layers@.len() implies
            (#[trigger] document.layers@[j]).tiles@.len() == w * h by {
            assert(document.layers@[j].fits(w as int, h as int));
        }
    }
    true
}

/// Appends the ten bytes of `t`.
fn push_cell(out: &mut Vec<u8>, t: Tile)
    ensures
        final(out)@ == old(out)@ + cell_bytes(t),
{
    push_le32(out, t.glyph as u32);
    out.push(t.fg.0[0]);
    out.push(t.fg.0[1]);
    out.push(t.fg.0[2]);
    out.push(t.bg.0[0]);
    out.push(t.bg.0[1]);
    out.push(t.bg.0[2]);
    assert(final(out)@ =~= old(out)@ + cell_bytes(t));
}

/// The tile `layer` shows at canvas cell `(x, y)`.
fn shown_at(layer: &Layer, w: u32, h: u32, x: u32, y: u32) -> (t: Tile)
    requires
        1 <= w <= i32::MAX,
        1 <= h <= i32::MAX,
        x < w,
        y < h,
        w * h <= u32::MAX,
        layer.tiles@.len() == w * h,
        (w - 1) - layer.offset.0 <= i32::MAX,
        (h - 1) - layer.offset.1 <= i32::MAX,
    ensures
        t == shown_tile(*layer, w as int, h as int, x as int, y as int),
{
    let (dx, dy) = layer.offset;
    let lx: i32 = x as i32 - dx;
    let ly: i32 = y as i32 - dy;
    if lx >= 0 && ly >= 0 && lx < w as i32 && ly < h as i32 {
        proof {
            lemma_cell_index_bounds(w as int, h as int, lx as int, ly as int);
        }
        layer.tiles[(ly as u32 * w + lx as u32) as usize]
    } else {
        Tile::default()
    }
}

/// The body of a file for `layers` on a `width` x `height` canvas.
///
/// Saving is what-you-see: each layer is stored as it shows on the canvas,
/// its offset baked into the cell positions; buffer content shifted off the
/// canvas is left out, and the layers themselves are not changed.
pub fn write_layers(layers: &Vec<Layer>, width: u32, height: u32) -> (out: Vec<u8>)
    requires
        writable(layers@, width as int, height as int),
    ensures
        out@ == xp_bytes(layers@, width as int, height as int),
{
    let ghost w = width as int;
    let ghost h = height as int;
    let ghost l = layer_len(w, h);
    let ghost f = |j: int| layer_bytes(layers@[j / l], w, h)[j % l];
    let ghost header = le32(i32_bits(XP_VERSION)) + le32(layers@.len() as u32);
    let mut out: Vec<u8> = Vec::new();
    push_le32(&mut out, 0xFFFF_FFFF);
    push_le32(&mut out, layers.len() as u32);
    assert(i32_bits(XP_VERSION) == 0xFFFF_FFFF);
    assert(out@ =~= header + Seq::new(0, f));
    let mut li: usize = 0;
    while li < layers.len()
        invariant
            writable(layers@, w, h),
            w == width,
            h == height,
            l == layer_len(w, h),
            f == (|j: int| layer_bytes(layers@[j / l], w, h)[j % l]),
            header == le32(i32_bits(XP_VERSION)) + le32(layers@.len() as u32),
            li <= layers@.len(),
            out@ == header + Seq::new((li * l) as nat, f),
        decreases layers@.len() - li,
    {
        let layer = &layers[li];
        let ghost start = out@;
        let ghost g = |j: int| cell_bytes(shown_tile(*layer, w, h, (j / 10) / h, (j / 10) % h))[j % 10];
        push_le32(&mut out, width);
        push_le32(&mut out, height);
        assert(out@ =~= start + le32(width) + le32(height) + Seq::new(0, g));
        let mut x: u32 = 0;
        while x < width
            invariant
                writable(layers@, w, h),
                w == width,
                h == height,
                li < layers@.len(),
                *layer == layers@[li as int],
                g == (|j: int| cell_bytes(shown_tile(*layer, w, h, (j / 10) / h, (j / 10) % h))[j % 10]),
                x <= width,
                out@ == start + le32(width) + le32(height) + Seq::new((10 * (x * h)) as nat, g),
            decreases width - x,
        {
            let mut y: u32 = 0;
            while y < height
                invariant
                    writable(layers@, w, h),
                    w == width,
                    h == height,
                    li < layers@.len(),
                    *layer == layers@[li as int],
                    g == (|j: int| cell_bytes(shown_tile(*layer, w, h, (j / 10) / h, (j / 10) % h))[j % 10]),
                    x < width,
                    y <= height,
                    out@ == start + le32(width) + le32(height) + Seq::new((10 * (x * h + y)) as nat, g),
                decreases height - y,
            {
                let t = shown_at(layer, width, height, x, y);
                let ghost before = out@;
                push_cell(&mut out, t);
                proof {
                    let k = x * h + y;
                    lemma_col_major_bound(w, h, x as int, y as int);
                    lemma_div_mod(k, h, x as int, y as int);
                    assert forall|j: int| k * 10 <= j < k * 10 + 10 implies #[trigger] g(j) == cell_bytes(t)[j - k * 10] by {
                        lemma_div_mod(j, 10, k, j - k * 10);
                    }
                    lemma_seq_new_block(g, cell_bytes(t), k, 10);
                    assert(10 * (x * h + y) == k * 10);
                    assert(10 * (x * h + y + 1) == (k + 1) * 10);
                }
                y = y + 1;
            }
            proof {
                assert((x + 1) * h == x * h + h) by (nonlinear_arith);
            }
            x = x + 1;
        }
        proof {
            let blk = layer_bytes(*layer, w, h);
            assert(out@ =~= start + blk);
            assert(0 <= w * h) by (nonlinear_arith)
                requires
                    0 <= w,
                    0 <= h,
            ;
            assert forall|j: int| li * l <= j < li * l + l implies #[trigger] f(j) == blk[j - li * l] by {
                lemma_div_mod(j, l, li as int, j - li * l);
            }
            lemma_seq_new_block(f, blk, li as int, l);
        }
        li = li + 1;
    }
    out
}


/// Why a file body could not be read.
#[derive(Debug)]
#[allow(inconsistent_fields)]
pub enum XpError {
    /// The body ends before the data it announces.
    Truncated,
    /// The layer count is not between 1 and 64.
    BadLayerCount { count: i32 },
    /// A layer is not at least one cell wide and high.
    BadDimensions { width: i32, height: i32 },
    /// A layer is not the size of the first one.
    InconsistentSize {
        layer: u32,
        width: u32,
        height: u32,
        expected_width: u32,
        expected_height: u32,
    },
    /// The first layer has more cells than 32-bit cell indices can address.
    Oversized { width: u32, height: u32 },
    /// The gzip decoder failed before the body was complete.
    Gzip(std::io::Error),
}

/// Where layer `li` starts when every layer is `w` x `h`.
pub open spec fn layer_pos(li: int, w: int, h: int) -> int {
    8 + li * layer_len(w, h)
}

/// What is wrong with layer `li` of body `b`, if anything, when the first
/// layer is `w0` x `h0`: the header is cut short, the size is not positive,
/// or not the first layer's, or the cells are cut short.
pub open spec fn layer_error(b: Seq<u8>, li: int, w0: int, h0: int) -> Option<XpError> {
    let p = layer_pos(li, w0, h0);
    if b.len() < p + 8 {
        Some(XpError::Truncated)
    } else {
        let w = i32_at(b, p);
        let h = i32_at(b, p + 4);
        if w <= 0 || h <= 0 {
            Some(XpError::BadDimensions { width: w as i32, height: h as i32 })
        } else if li > 0 && (w != w0 || h != h0) {
            Some(
                XpError::InconsistentSize {
                    layer: li as u32,
                    width: w as u32,
                    height: h as u32,
                    expected_width: w0 as u32,
                    expected_height: h0 as u32,
                },
            )
        } else if b.len() < p + layer_len(w0, h0) {
            Some(XpError::Truncated)
        } else {
            None
        }
    }
}

/// The first error among layers `li..n`.
pub open spec fn layers_error(b: Seq<u8>, n: int, w0: int, h0: int, li: int) -> Option<XpError>
    decreases n - li,
{
    if li >= n {
        None
    } else {
        match layer_error(b, li, w0, h0) {
            Some(e) => Some(e),
            None => layers_error(b, n, w0, h0, li + 1),
        }
    }
}

/// The layer count of body `b`.
pub open spec fn xp_layer_count(b: Seq<u8>) -> int {
    i32_at(b, 4)
}

/// The canvas width of body `b`: the first layer's.
pub open spec fn xp_width(b: Seq<u8>) -> int {
    i32_at(b, 8)
}

/// The canvas height of body `b`: the first layer's.
pub open spec fn xp_height(b: Seq<u8>) -> int {
    i32_at(b, 12)
}

/// The error `read` gives for body `b`, or `None` when it reads it: the
/// header is cut short, the layer count is out of range, or a layer is
/// wrong, the first such in file order.
pub open spec fn xp_error(b: Seq<u8>) -> Option<XpError> {
    if b.len() < 8 {
        Some(XpError::Truncated)
    } else if xp_layer_count(b) <= 0 || xp_layer_count(b) > XP_MAX_LAYERS {
        Some(XpError::BadLayerCount { count: xp_layer_count(b) as i32 })
    } else {
        layers_error(b, xp_layer_count(b), xp_width(b), xp_height(b), 0)
    }
}

/// The first layer's cell count fits 32-bit cell indices, whenever reading
/// gets as far as that layer's size.
pub open spec fn xp_dims_fit(b: Seq<u8>) -> bool {
    b.len() >= 16 && 1 <= xp_layer_count(b) <= XP_MAX_LAYERS && xp_width(b) > 0 && xp_height(b)
        > 0 ==> xp_width(b) * xp_height(b) <= u32::MAX
}

/// Where the cell at column `x`, row `y` of layer `li` is stored.
pub open spec fn cell_pos(li: int, w: int, h: int, x: int, y: int) -> int {
    layer_pos(li, w, h) + 8 + 10 * (x * h + y)
}

/// The tile whose ten bytes start at `b[q]`: the glyph is the low byte of
/// the glyph word, and both colors are opaque.
pub open spec fn tile_from_bytes(b: Seq<u8>, q: int) -> Tile {
    Tile {
        glyph: b[q],
        fg: rgba(b[q + 4], b[q + 5], b[q + 6], 255),
        bg: rgba(b[q + 7], b[q + 8], b[q + 9], 255),
    }
}

/// The tiles of layer `li` of body `b`, row by row.
pub open spec fn xp_layer_tiles(b: Seq<u8>, li: int, w: int, h: int) -> Seq<Tile> {
    Seq::new((w * h) as nat, |i: int| tile_from_bytes(b, cell_pos(li, w, h, i % w, i / w)))
}

/// The name `read` gives layer `k` (counting from 1).
pub open spec fn layer_name(k: nat) -> Seq<char> {
    "Layer "@ + decimal(k)
}

/// What `read` returns for body `b`: on success a document with the default
/// settings and `font`, the body's canvas size, and one visible layer per
/// stored layer, named "Layer 1", "Layer 2", ..., at offset zero and flagged
/// for a full upload; on failure `xp_error(b)`.
pub open spec fn read_result(b: Seq<u8>, font: FontAtlas, r: Result<Document, XpError>) -> bool {
    match r {
        Ok(d) => {
            &&& xp_error(b) is None
            &&& d.wf()
            &&& d.width == xp_width(b)
            &&& d.height == xp_height(b)
            &&& d.layers@.len() == xp_layer_count(b)
            &&& forall|li: int|
                0 <= li < d.layers@.len() ==> {
                    let layer = #[trigger] d.layers@[li];
                    &&& layer.name@ == layer_name((li + 1) as nat)
                    &&& layer.visible
                    &&& layer.offset == (0i32, 0i32)
                    &&& layer.tiles@ == xp_layer_tiles(b, li, d.width as int, d.height as int)
                    &&& layer.dirty_cells@.len() == 0
                    &&& layer.full_upload
                }
            &&& d.active_layer == 0
            &&& d.has_default_settings(font)
            &&& d.resources_generation == 2
        },
        Err(e) => xp_error(b) == Some(e),
    }
}

/// Reads the tiles of the layer stored at `p`, row by row.
fn read_layer_tiles(b: &[u8], li: usize, p: usize, w: u32, h: u32) -> (tiles: Vec<Tile>)
    requires
        1 <= w,
        1 <= h,
        w * h <= u32::MAX,
        li <= 64,
        p == layer_pos(li as int, w as int, h as int),
        p + layer_len(w as int, h as int) <= b@.len(),
    ensures
        tiles@ == xp_layer_tiles(b@, li as int, w as int, h as int),
{
    let ghost wi = w as int;
    let ghost hi = h as int;
    let ghost ft = |i: int| tile_from_bytes(b@, cell_pos(li as int, wi, hi, i % wi, i / wi));
    let mut tiles: Vec<Tile> = Vec::new();
    let mut y: u32 = 0;
    while y < h
        invariant
            1 <= w,
            1 <= h,
            wi == w,
            hi == h,
            w * h <= u32::MAX,
            p == layer_pos(li as int, wi, hi),
            p + layer_len(wi, hi) <= b@.len(),
            ft == (|i: int| tile_from_bytes(b@, cell_pos(li as int, wi, hi, i % wi, i / wi))),
            y <= h,
            tiles@ == Seq::new((y * w) as nat, ft),
        decreases h - y,
    {
        let mut x: u32 = 0;
        while x < w
            invariant
                1 <= w,
                1 <= h,
                wi == w,
                hi == h,
                w * h <= u32::MAX,
                p == layer_pos(li as int, wi, hi),
                p + layer_len(wi, hi) <= b@.len(),
                ft == (|i: int| tile_from_bytes(b@, cell_pos(li as int, wi, hi, i % wi, i / wi))),
                y < h,
                x <= w,
                tiles@ == Seq::new((y * w + x) as nat, ft),
            decreases w - x,
        {
            proof {
                lemma_col_major_bound(wi, hi, x as int, y as int);
                assert(0 <= x * h + y);
                assert(10 * (x * h + y) + 10 <= 10 * (w * h));
            }
            let k: usize = (x as usize) * (h as usize) + (y as usize);
            let blen = b.len();
            assert(p + 8 + 10 * k + 10 <= blen);
            let q: usize = p + 8 + 10 * k;
            let t = Tile {
                glyph: b[q],
                fg: Color([b[q + 4], b[q + 5], b[q + 6], 255]),
                bg: Color([b[q + 7], b[q + 8], b[q + 9], 255]),
            };
            proof {
                let i = y * w + x;
                lemma_div_mod(i, wi, y as int, x as int);
                assert(q == cell_pos(li as int, wi, hi, x as int, y as int));
                assert(t == ft(i));
            }
            tiles.push(t);
            assert(tiles@ =~= Seq::new((y * w + x + 1) as nat, ft));
            x = x + 1;
        }
        proof {
            assert((y + 1) * w == y * w + w) by (nonlinear_arith);
        }
        y = y + 1;
    }
    assert(h * w == w * h) by (nonlinear_arith);
    assert(tiles@ =~= xp_layer_tiles(b@, li as int, w as int, h as int));
    tiles
}


/// The per-layer facts `read` establishes for layers `0..k`.
spec fn read_layers_so_far(b: Seq<u8>, layers: Seq<Layer>, w: int, h: int) -> bool {
    forall|li: int|
        0 <= li < layers.len() ==> {
            let layer = #[trigger] layers[li];
            &&& layer.name@ == layer_name((li + 1) as nat)
            &&& layer.visible
            &&& layer.offset == (0i32, 0i32)
            &&& layer.tiles@ == xp_layer_tiles(b, li, w, h)
            &&& layer.dirty_cells@.len() == 0
            &&& layer.full_upload
            &&& layer.fits(w, h)
        }
}

/// Reads a file body into a new document that uses `font`.
///
/// The version word is not checked. The layer count must be between 1 and
/// 64, every layer must have the first layer's positive size, and the body
/// must hold all the cells it announces; bytes after the last layer are
/// ignored. Colors come back opaque, as the format stores no alpha.
pub fn read(b: &[u8], font: FontAtlas) -> (r: Result<Document, XpError>)
    requires
        xp_dims_fit(b@),
    ensures
        read_result(b@, font, r),
{
    if b.len() < 8 {
        return Err(XpError::Truncated);
    }
    let n = read_i32(b, 4);
    if n <= 0 || n > XP_MAX_LAYERS {
        return Err(XpError::BadLayerCount { count: n });
    }
    let ghost bs = b@;
    let ghost nn = n as int;
    if b.len() < 16 {
        proof {
            assert(layer_error(bs, 0, xp_width(bs), xp_height(bs)) == Some(XpError::Truncated));
        }
        return Err(XpError::Truncated);
    }
    let w0 = read_i32(b, 8);
    let h0 = read_i32(b, 12);
    if w0 <= 0 || h0 <= 0 {
        proof {
            assert(layer_error(bs, 0, w0 as int, h0 as int) == Some(
                XpError::BadDimensions { width: w0, height: h0 },
            ));
        }
        return Err(XpError::BadDimensions { width: w0, height: h0 });
    }
    let width = w0 as u32;
    let height = h0 as u32;
    let ghost wi = width as int;
    let ghost hi = height as int;
    let area: u64 = (width as u64) * (height as u64);
    let bl: u64 = 8 + 10 * area;
    assert(bl == layer_len(wi, hi));
    let mut layers: Vec<Layer> = Vec::new();
    let mut li: u32 = 0;
    while li < n as u32
        invariant
            bs == b@,
            8 <= bs.len(),
            nn == n,
            nn == xp_layer_count(bs),
            1 <= n <= XP_MAX_LAYERS,
            wi == width,
            hi == height,
            wi == w0,
            hi == h0,
            wi == xp_width(bs),
            hi == xp_height(bs),
            1 <= wi,
            1 <= hi,
            width * height <= u32::MAX,
            area == width * height,
            bl == layer_len(wi, hi),
            li <= n,
            layers@.len() == li,
            layers_error(bs, nn, wi, hi, 0) == layers_error(bs, nn, wi, hi, li as int),
            read_layers_so_far(bs, layers@, wi, hi),
        decreases n - li,
    {
        assert(li * bl <= 64 * bl) by (nonlinear_arith)
            requires
                li <= 64,
                0 <= bl,
        ;
        let p: u64 = 8 + (li as u64) * bl;
        assert(p == layer_pos(li as int, wi, hi));
        if (b.len() as u64) < p + 8 {
            return Err(XpError::Truncated);
        }
        let pu = p as usize;
        assert(pu == p);
        assert(b@.len() == b.len() as u64);
        let w = read_i32(b, pu);
        let h = read_i32(b, pu + 4);
        if w <= 0 || h <= 0 {
            return Err(XpError::BadDimensions { width: w, height: h });
        }
        if li > 0 && (w != w0 || h != h0) {
            proof {
                let e = XpError::InconsistentSize {
                    layer: li,
                    width: w as u32,
                    height: h as u32,
                    expected_width: width,
                    expected_height: height,
                };
                assert(layer_error(bs, li as int, wi, hi) == Some(e));
                assert(layers_error(bs, nn, wi, hi, li as int) == Some(e));
            }
            return Err(
                XpError::InconsistentSize {
                    layer: li,
                    width: w as u32,
                    height: h as u32,
                    expected_width: width,
                    expected_height: height,
                },
            );
        }
        if (b.len() as u64) < p + bl {
            proof {
                assert(layer_error(bs, li as int, wi, hi) == Some(XpError::Truncated));
                assert(layers_error(bs, nn, wi, hi, li as int) == Some(XpError::Truncated));
            }
            return Err(XpError::Truncated);
        }
        assert(layer_error(bs, li as int, wi, hi) is None);
        let tiles = read_layer_tiles(b, li as usize, pu, width, height);
        let mut name = String::from_str("Layer ");
        let digits = decimal_string(li + 1);
        name.append(digits.as_str());
        let mut layer = Layer::new(name, width, height);
        layer.tiles = tiles;
        let ghost prev = layers@;
        layers.push(layer);
        proof {
            assert(layers@.last().fits(wi, hi));
            assert forall|k: int| 0 <= k < layers@.len() implies {
                let l = #[trigger] layers@[k];
                &&& l.name@ == layer_name((k + 1) as nat)
                &&& l.visible
                &&& l.offset == (0i32, 0i32)
                &&& l.tiles@ == xp_layer_tiles(bs, k, wi, hi)
                &&& l.dirty_cells@.len() == 0
                &&& l.full_upload
                &&& l.fits(wi, hi)
            } by {
                if k < li {
                    assert(layers@[k] == prev[k]);
                }
            }
        }
        li = li + 1;
    }
    let mut d = Document::new_default(font);
    d.width = width;
    d.height = height;
    d.layers = layers;
    d.active_layer = 0;
    d.bump_resources();
    Ok(d)
}


/// The body of a file for `document`; see [`write_layers`].
pub fn write(document: &Document) -> (out: Vec<u8>)
    requires
        document.wf(),
        writable(document.layers@, document.width as int, document.height as int),
    ensures
        out@ == xp_bytes(document.layers@, document.width as int, document.height as int),
{
    write_layers(&document.layers, document.width, document.height)
}

/// `c` with full alpha.
pub open spec fn opaque(c: Color) -> Color {
    rgba(c.0[0], c.0[1], c.0[2], 255)
}

/// What the format keeps of a tile: its glyph and its colors made opaque.
pub open spec fn stored_tile(t: Tile) -> Tile {
    Tile { glyph: t.glyph, fg: opaque(t.fg), bg: opaque(t.bg) }
}

/// Byte `t` of stored layer `li` is byte `t` of that layer's block.
proof fn lemma_xp_byte(layers: Seq<Layer>, w: int, h: int, li: int, t: int)
    requires
        1 <= w,
        1 <= h,
        0 <= li < layers.len(),
        0 <= t < layer_len(w, h),
    ensures
        xp_bytes(layers, w, h).len() == 8 + layers.len() * layer_len(w, h),
        layer_pos(li, w, h) + t < xp_bytes(layers, w, h).len(),
        xp_bytes(layers, w, h)[layer_pos(li, w, h) + t] == layer_bytes(layers[li], w, h)[t],
{
    let l = layer_len(w, h);
    let n = layers.len() as int;
    assert(0 <= w * h) by (nonlinear_arith)
        requires
            1 <= w,
            1 <= h,
    ;
    assert(li * l + l <= n * l) by (nonlinear_arith)
        requires
            li + 1 <= n,
            0 < l,
    ;
    assert(0 <= li * l) by (nonlinear_arith)
        requires
            0 <= li,
            0 < l,
    ;
    lemma_div_mod(li * l + t, l, li, t);
}

/// Byte `r` of the cell at column `x`, row `y` of a stored layer.
proof fn lemma_cell_byte(layer: Layer, w: int, h: int, x: int, y: int, r: int)
    requires
        0 <= x < w,
        0 <= y < h,
        0 <= r < 10,
    ensures
        8 + 10 * (x * h + y) + r < layer_len(w, h),
        layer_bytes(layer, w, h)[8 + 10 * (x * h + y) + r] == cell_bytes(
            shown_tile(layer, w, h, x, y),
        )[r],
{
    let k = x * h + y;
    lemma_col_major_bound(w, h, x, y);
    lemma_div_mod(10 * k + r, 10, k, r);
    lemma_div_mod(k, h, x, y);
}

/// The word at the start of stored layer `li` is the width, the next the height.
proof fn lemma_layer_header(layers: Seq<Layer>, w: int, h: int, li: int)
    requires
        1 <= w <= i32::MAX,
        1 <= h <= i32::MAX,
        0 <= li < layers.len(),
    ensures
        i32_at(xp_bytes(layers, w, h), layer_pos(li, w, h)) == w,
        i32_at(xp_bytes(layers, w, h), layer_pos(li, w, h) + 4) == h,
{
    let b = xp_bytes(layers, w, h);
    let p = layer_pos(li, w, h);
    let blk = layer_bytes(layers[li], w, h);
    assert(0 <= w * h) by (nonlinear_arith)
        requires
            1 <= w,
            1 <= h,
    ;
    lemma_xp_byte(layers, w, h, li, 0);
    lemma_xp_byte(layers, w, h, li, 1);
    lemma_xp_byte(layers, w, h, li, 2);
    lemma_xp_byte(layers, w, h, li, 3);
    lemma_xp_byte(layers, w, h, li, 4);
    lemma_xp_byte(layers, w, h, li, 5);
    lemma_xp_byte(layers, w, h, li, 6);
    lemma_xp_byte(layers, w, h, li, 7);
    lemma_le32(w as u32);
    lemma_le32(h as u32);
    assert(u32_at(b, p) == u32_at(le32(w as u32), 0));
    assert(u32_at(b, p + 4) == u32_at(le32(h as u32), 0));
}

/// Every stored layer `li..n` passes `read`'s checks.
proof fn lemma_layers_ok(layers: Seq<Layer>, w: int, h: int, li: int)
    requires
        1 <= w <= i32::MAX,
        1 <= h <= i32::MAX,
        0 <= li <= layers.len(),
    ensures
        layers_error(xp_bytes(layers, w, h), layers.len() as int, w, h, li) is None,
    decreases layers.len() - li,
{
    if li < layers.len() {
        lemma_layers_ok(layers, w, h, li + 1);
        lemma_layer_header(layers, w, h, li);
        lemma_xp_byte(layers, w, h, li, layer_len(w, h) - 1);
    }
}

/// Byte `r` of the cell at column `x`, row `y` of stored layer `li`.
proof fn lemma_stored_cell_byte(layers: Seq<Layer>, w: int, h: int, li: int, x: int, y: int, r: int)
    requires
        1 <= w,
        1 <= h,
        0 <= li < layers.len(),
        0 <= x < w,
        0 <= y < h,
        0 <= r < 10,
    ensures
        xp_bytes(layers, w, h)[cell_pos(li, w, h, x, y) + r] == cell_bytes(
            shown_tile(layers[li], w, h, x, y),
        )[r],
{
    lemma_cell_byte(layers[li], w, h, x, y, r);
    lemma_xp_byte(layers, w, h, li, 8 + 10 * (x * h + y) + r);
}

/// The cell at column `x`, row `y` of stored layer `li` reads back as the
/// tile the layer shows there, made opaque.
proof fn lemma_cell_roundtrip(layers: Seq<Layer>, w: int, h: int, li: int, x: int, y: int)
    requires
        1 <= w,
        1 <= h,
        0 <= li < layers.len(),
        0 <= x < w,
        0 <= y < h,
    ensures
        tile_from_bytes(xp_bytes(layers, w, h), cell_pos(li, w, h, x, y)) == stored_tile(
            shown_tile(layers[li], w, h, x, y),
        ),
{
    let b = xp_bytes(layers, w, h);
    let q = cell_pos(li, w, h, x, y);
    let t = shown_tile(layers[li], w, h, x, y);
    lemma_stored_cell_byte(layers, w, h, li, x, y, 0);
    lemma_stored_cell_byte(layers, w, h, li, x, y, 4);
    lemma_stored_cell_byte(layers, w, h, li, x, y, 5);
    lemma_stored_cell_byte(layers, w, h, li, x, y, 6);
    lemma_stored_cell_byte(layers, w, h, li, x, y, 7);
    lemma_stored_cell_byte(layers, w, h, li, x, y, 8);
    lemma_stored_cell_byte(layers, w, h, li, x, y, 9);
    assert(b[q] == cell_bytes(t)[0]);
    assert(tile_from_bytes(b, q) == stored_tile(t));
}

/// Stored layer `li` reads back as the tiles it showed, made opaque.
proof fn lemma_layer_roundtrip(layers: Seq<Layer>, w: int, h: int, li: int)
    requires
        1 <= w,
        1 <= h,
        0 <= li < layers.len(),
    ensures
        xp_layer_tiles(xp_bytes(layers, w, h), li, w, h) == Seq::new(
            (w * h) as nat,
            |i: int| stored_tile(shown_tile(layers[li], w, h, i % w, i / w)),
        ),
{
    let b = xp_bytes(layers, w, h);
    assert forall|i: int| 0 <= i < w * h implies #[trigger] tile_from_bytes(
        b,
        cell_pos(li, w, h, i % w, i / w),
    ) == stored_tile(shown_tile(layers[li], w, h, i % w, i / w)) by {
        lemma_cell_of_index(w, h, i);
        lemma_cell_roundtrip(layers, w, h, li, i % w, i / w);
    }
    assert(xp_layer_tiles(b, li, w, h) =~= Seq::new(
        (w * h) as nat,
        |i: int| stored_tile(shown_tile(layers[li], w, h, i % w, i / w)),
    ));
}

/// Reading back what `write` stores gives the same canvas size and number of
/// layers, and each layer's tiles as the layer showed them on the canvas,
/// with opaque colors. (Names, visibility and offsets are not stored.)
#[verifier::spinoff_prover]
#[verifier::rlimit(40)]
pub proof fn lemma_xp_roundtrip(layers: Seq<Layer>, w: int, h: int)
    requires
        writable(layers, w, h),
        1 <= layers.len() <= XP_MAX_LAYERS,
    ensures
        xp_dims_fit(xp_bytes(layers, w, h)),
        xp_error(xp_bytes(layers, w, h)) is None,
        xp_layer_count(xp_bytes(layers, w, h)) == layers.len(),
        xp_width(xp_bytes(layers, w, h)) == w,
        xp_height(xp_bytes(layers, w, h)) == h,
        forall|li: int|
            0 <= li < layers.len() ==> #[trigger] xp_layer_tiles(xp_bytes(layers, w, h), li, w, h)
                == Seq::new(
                (w * h) as nat,
                |i: int| stored_tile(shown_tile(layers[li], w, h, i % w, i / w)),
            ),
{
    let b = xp_bytes(layers, w, h);
    lemma_le32(layers.len() as u32);
    assert(u32_at(b, 4) == u32_at(le32(layers.len() as u32), 0));
    lemma_layer_header(layers, w, h, 0);
    lemma_layers_ok(layers, w, h, 0);
    assert forall|li: int| 0 <= li < layers.len() implies #[trigger] xp_layer_tiles(b, li, w, h)
        == Seq::new(
        (w * h) as nat,
        |i: int| stored_tile(shown_tile(layers[li], w, h, i % w, i / w)),
    ) by {
        lemma_layer_roundtrip(layers, w, h, li);
    }
}


/// The gzipped `.xp` file for `document`.
pub fn encode_file(document: &Document) -> (r: Result<Vec<u8>, XpError>)
    requires
        document.wf(),
        writable(document.layers@, document.width as int, document.height as int),
    ensures
        r is Ok,
        r matches Ok(z) ==> {
            let body = xp_bytes(document.layers@, document.width as int, document.height as int);
            &&& z@ == gzip_compressed(body)
            &&& gunzip_stream(z@) == (body, true)
        },
{
    let body = write(document);
    match gzip_compress(body.as_slice()) {
        Ok(z) => Ok(z),
        Err(e) => Err(XpError::Gzip(e)),
    }
}

/// Reads a gzipped `.xp` file into a new document that uses `font`. The
/// body is read from the bytes the gzip decoder delivers, as a stream: a
/// decoder failure is an error only when the body needs bytes past the
/// point where it failed, so a damaged trailer after a complete body does
/// not matter. The first layer must be small enough for 32-bit cell indices.
pub fn decode_file(file: &[u8], font: FontAtlas) -> (r: Result<Document, XpError>)
    ensures
        ({
            let (b, complete) = gunzip_stream(file@);
            if !xp_dims_fit(b) {
                r matches Err(XpError::Oversized { width, height }) && width == xp_width(b)
                    && height == xp_height(b)
            } else if !complete && xp_error(b) == Some(XpError::Truncated) {
                r matches Err(XpError::Gzip(_))
            } else {
                read_result(b, font, r)
            }
        }),
{
    let (body, failure) = gunzip_bytes(file);
    let b = body.as_slice();
    if b.len() >= 16 {
        let n = read_i32(b, 4);
        let w = read_i32(b, 8);
        let h = read_i32(b, 12);
        if 1 <= n && n <= XP_MAX_LAYERS && w > 0 && h > 0 {
            assert((w as u64) * (h as u64) <= 0x4000_0000_0000_0000) by (nonlinear_arith)
                requires
                    0 < w <= 0x7FFF_FFFF,
                    0 < h <= 0x7FFF_FFFF,
            ;
            if (w as u64) * (h as u64) > 0xFFFF_FFFF {
                return Err(XpError::Oversized { width: w as u32, height: h as u32 });
            }
        }
    }
    match read(b, font) {
        Err(XpError::Truncated) => match failure {
            Some(e) => Err(XpError::Gzip(e)),
            None => Err(XpError::Truncated),
        },
        other => other,
    }
}

} // verus!
