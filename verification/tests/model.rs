use txpaint::document::{oval_cells, CellRect, Document, SelectionMask};
use txpaint::font::FontAtlas;
use txpaint::glyph_palette::{validate_palette_file, GlyphPalette, PaletteFileError};
use txpaint::history::{CellChange, History};
use txpaint::layer::{composite_over, Layer};
use txpaint::palette::{Color, Palette};
use txpaint::tile::Tile;
use txpaint::tools::shape_families::{
    coerce_to_family, flip_glyph, glyph_to_pattern, is_connected_glyph, pattern_to_glyph,
    rect_family_for, stroke_family, ConnectionPattern, LineStyle, Side,
};
use txpaint::tools::{apply, ToolKind};

fn font() -> FontAtlas {
    FontAtlas { name: "test".to_string(), cell_w: 1, cell_h: 1, mask: vec![0; 256] }
}

#[test]
fn new_documents() {
    let d = Document::new_default(font());
    assert_eq!((d.width, d.height), (80, 25));
    assert_eq!(d.layers[0].name, "Background");
    assert_eq!(d.layers[0].tiles.len(), 2000);
    let d = Document::new_with_size(0, 3, font());
    assert_eq!((d.width, d.height), (1, 3));
    assert_eq!(d.selected_glyph, 65);
    assert_eq!(d.glyph_palettes[0].name, "Palette 1");
    assert_eq!(d.palettes[0].name, "DOS 16");
    assert_eq!(d.palettes[0].colors.len(), 16);
    assert_eq!(Palette::default_dos().colors[6], Color([170, 85, 0, 255]));
}

#[test]
fn new_documents_ask_for_a_full_upload() {
    let d = Document::new_with_size(2, 2, font());
    assert!(d.layers[0].full_upload);
    assert!(d.layers[0].dirty_cells.is_empty());
    let d = Document::new_default(font());
    assert!(d.layers[0].full_upload);
    assert!(d.layers[0].dirty_cells.is_empty());
}

#[test]
fn undo_and_redo_mark_changed_cells_dirty() {
    let mut d = Document::new_with_size(3, 1, font());
    let mut h = History::new();
    let blank = d.layers[0].tiles[1];
    let drawn = Tile { glyph: 66, ..blank };
    h.begin_stroke();
    d.layers[0].tiles[1] = drawn;
    h.record(CellChange { layer: 0, x: 1, y: 0, before: blank, after: drawn });
    h.record(CellChange { layer: 0, x: 2, y: 0, before: blank, after: blank });
    h.end_stroke();
    d.layers[0].dirty_cells.clear();
    d.layers[0].full_upload = false;
    assert!(h.undo(&mut d));
    assert_eq!(d.layers[0].tiles[1], blank);
    assert_eq!(d.layers[0].dirty_cells, vec![(1, 0)]);
    assert!(!d.layers[0].full_upload);
    d.layers[0].dirty_cells.clear();
    assert!(h.redo(&mut d));
    assert_eq!(d.layers[0].tiles[1], drawn);
    assert_eq!(d.layers[0].dirty_cells, vec![(1, 0)]);
}

#[test]
fn blank_tile_is_transparent() {
    let t = Tile::default();
    assert_eq!(t.glyph, 0);
    assert_eq!(t.bg, Color([255, 0, 255, 255]));
    assert_eq!(t.fg, Color([255, 255, 255, 255]));
}

#[test]
fn pencil_eraser_eyedropper() {
    let mut d = Document::new_with_size(3, 3, font());
    let mut h = History::new();
    d.fg = Color([1, 2, 3, 255]);
    apply(&mut d, &mut h, 1, 2);
    assert_eq!(d.layers[0].tiles[7], Tile { glyph: 65, fg: Color([1, 2, 3, 255]), bg: d.bg });
    d.active_tool = ToolKind::Eyedropper;
    d.selected_glyph = 0;
    d.fg = Color([0, 0, 0, 255]);
    apply(&mut d, &mut h, 1, 2);
    assert_eq!(d.selected_glyph, 65);
    assert_eq!(d.fg, Color([1, 2, 3, 255]));
    d.active_tool = ToolKind::Eraser;
    apply(&mut d, &mut h, 1, 2);
    assert_eq!(d.layers[0].tiles[7].glyph, 0);
    assert_eq!(d.layers[0].tiles[7].bg, Color([255, 0, 255, 255]));
    // Outside the canvas nothing happens.
    apply(&mut d, &mut h, 3, 0);
    assert!(h.undo(&mut d));
    assert_eq!(d.layers[0].tiles[7].glyph, 65);
}

#[test]
fn strokes_undo_as_one_step() {
    let mut d = Document::new_with_size(4, 1, font());
    let mut h = History::new();
    h.begin_stroke();
    apply(&mut d, &mut h, 0, 0);
    apply(&mut d, &mut h, 1, 0);
    apply(&mut d, &mut h, 0, 0);
    h.end_stroke();
    assert!(h.undo(&mut d));
    assert_eq!(d.layers[0].tiles[0].glyph, 0);
    assert_eq!(d.layers[0].tiles[1].glyph, 0);
    assert!(!h.undo(&mut d));
    assert!(h.redo(&mut d));
    assert_eq!(d.layers[0].tiles[1].glyph, 65);
    assert!(!h.redo(&mut d));
}

#[test]
fn a_new_edit_clears_redo() {
    let mut d = Document::new_with_size(2, 1, font());
    let mut h = History::new();
    apply(&mut d, &mut h, 0, 0);
    assert!(h.undo(&mut d));
    apply(&mut d, &mut h, 1, 0);
    assert!(!h.redo(&mut d));
}

#[test]
fn history_keeps_two_hundred_steps() {
    let mut d = Document::new_with_size(1, 1, font());
    let mut h = History::new();
    for i in 0..201u32 {
        let before = d.layers[0].tiles[0];
        let after = Tile { glyph: (i % 250) as u8 + 1, ..before };
        d.layers[0].tiles[0] = after;
        h.record(CellChange { layer: 0, x: 0, y: 0, before, after });
    }
    let mut undone = 0;
    while h.undo(&mut d) {
        undone += 1;
    }
    assert_eq!(undone, 200);
    assert_eq!(d.layers[0].tiles[0].glyph, 1);
}

#[test]
fn selection_masks() {
    let r = CellRect::from_corners(3, 1, 1, 2);
    assert_eq!((r.x, r.y, r.w, r.h), (1, 1, 3, 2));
    let c = CellRect { x: 5, y: 0, w: 9, h: 9 }.clamped(4, 3);
    assert_eq!((c.x, c.y, c.w, c.h), (3, 0, 1, 3));
    let mut m = SelectionMask::new(4, 3);
    assert!(m.is_empty());
    m.add_rect(r);
    assert_eq!(m.iter_cells().len(), 6);
    m.subtract_rect(CellRect { x: 2, y: 0, w: 9, h: 9 });
    assert_eq!(m.iter_cells(), vec![(1, 1), (1, 2)]);
    assert!(m.contains(1, 2));
    assert!(!m.contains(9, 9));
    m.fill_all();
    assert_eq!(m.iter_cells().len(), 12);
    assert!(SelectionMask::from_rect(4, 3, CellRect { x: 0, y: 0, w: 0, h: 0 }).is_none());
}

#[test]
fn ovals() {
    let cells = oval_cells(CellRect { x: 0, y: 0, w: 5, h: 5 });
    assert_eq!(cells.len(), 25 - 4);
    assert!(cells.contains(&(2, 2)));
    assert!(cells.contains(&(0, 1)));
    assert!(!cells.contains(&(0, 0)));
    assert!(!cells.contains(&(4, 4)));
    let m = SelectionMask::from_oval(3, 3, CellRect { x: 0, y: 0, w: 3, h: 3 }).unwrap();
    assert_eq!(m.iter_cells().len(), 9);
    let m = SelectionMask::from_oval(5, 5, CellRect { x: 0, y: 0, w: 5, h: 5 }).unwrap();
    assert_eq!(m.iter_cells().len(), 21);
}

#[test]
fn oval_cells_in_row_order() {
    let cells = oval_cells(CellRect { x: 0, y: 0, w: 5, h: 5 });
    let expected: Vec<(u32, u32)> = vec![
        (1, 0), (2, 0), (3, 0),
        (0, 1), (1, 1), (2, 1), (3, 1), (4, 1),
        (0, 2), (1, 2), (2, 2), (3, 2), (4, 2),
        (0, 3), (1, 3), (2, 3), (3, 3), (4, 3),
        (1, 4), (2, 4), (3, 4),
    ];
    assert_eq!(cells, expected);
    assert!(oval_cells(CellRect { x: 2, y: 2, w: 0, h: 3 }).is_empty());
}

#[test]
fn compositing() {
    let bot = Tile { glyph: 1, fg: Color([1, 1, 1, 255]), bg: Color([2, 2, 2, 255]) };
    let opaque = Tile { glyph: 3, fg: Color([3, 3, 3, 255]), bg: Color([4, 4, 4, 255]) };
    assert_eq!(composite_over(opaque, bot), opaque);
    assert_eq!(composite_over(Tile::default(), bot), bot);
    let g = Tile { glyph: 7, fg: Color([5, 5, 5, 255]), bg: Color([255, 0, 255, 255]) };
    assert_eq!(composite_over(g, bot), Tile { glyph: 7, fg: g.fg, bg: bot.bg });
}

#[test]
fn merging_follows_offsets() {
    let mut below = Layer::new("b".to_string(), 3, 1);
    let mut above = Layer::new("a".to_string(), 3, 1);
    let t = Tile { glyph: 9, fg: Color([1, 1, 1, 255]), bg: Color([2, 2, 2, 255]) };
    above.tiles[0] = t;
    above.offset = (2, 0);
    below.merge_from_above(&above, 3, 1);
    assert_eq!(below.tiles[2], t);
    assert_eq!(below.tiles[0], Tile::default());
    assert_eq!(below.dirty_cells, vec![(2, 0)]);
}

#[test]
fn glyph_palettes() {
    let mut p = GlyphPalette::new("p".to_string(), 0, 2);
    assert_eq!((p.w, p.h), (1, 2));
    p.set(0, 1, Some(5));
    p.set(3, 3, Some(6));
    assert_eq!(p.get(0, 1), Some(5));
    assert_eq!(p.get(3, 3), None);
    p.resize(2, 1);
    assert_eq!(p.slots.len(), 2);
    assert_eq!(p.get(0, 1), None);
    p.set(1, 0, Some(1));
    p.clear();
    assert_eq!(p.get(1, 0), None);
    assert!(validate_palette_file(1, GlyphPalette::default()).is_ok());
    assert_eq!(
        validate_palette_file(2, GlyphPalette::default()).err(),
        Some(PaletteFileError::NewerVersion { version: 2 })
    );
    let mut bad = GlyphPalette::default();
    bad.slots.pop();
    assert_eq!(
        validate_palette_file(1, bad).err(),
        Some(PaletteFileError::SlotCount { w: 8, h: 4, expected: 32, found: 31 })
    );
}

#[test]
fn box_drawing_families() {
    assert_eq!(rect_family_for(218).map(|f| f.tl), Some(218));
    assert_eq!(rect_family_for(188).map(|f| f.tl), Some(201));
    assert!(rect_family_for(65).is_none());
    let p = glyph_to_pattern(197).unwrap();
    assert_eq!(p, ConnectionPattern { top: LineStyle::Single, right: LineStyle::Single, bottom: LineStyle::Single, left: LineStyle::Single });
    assert_eq!(pattern_to_glyph(p), Some(197));
    assert_eq!(pattern_to_glyph(ConnectionPattern::empty()), None);
    assert!(is_connected_glyph(213));
    assert!(!is_connected_glyph(65));
    assert_eq!(stroke_family(206), LineStyle::Double);
    assert_eq!(stroke_family(213), LineStyle::Single);
    assert_eq!(stroke_family(65), LineStyle::NoLine);
    assert_eq!(flip_glyph(218, true, false), 191);
    assert_eq!(flip_glyph(218, true, true), 217);
    assert_eq!(flip_glyph(flip_glyph(213, true, true), true, true), 213);
    assert_eq!(flip_glyph(65, true, true), 65);
    let mixed = ConnectionPattern { top: LineStyle::Single, right: LineStyle::Double, bottom: LineStyle::Double, left: LineStyle::Single };
    let c = coerce_to_family(mixed, LineStyle::Double);
    assert_eq!(c.top, LineStyle::Double);
    assert_eq!(c.left, LineStyle::Double);
    assert_eq!(Side::Top.opposite(), Side::Bottom);
    assert_eq!(Side::Left.step(0, 5), (-1, 5));
    assert_eq!(p.with(Side::Top, LineStyle::NoLine).get(Side::Top), LineStyle::NoLine);
}


#[test]
fn mixed_families_resolve_to_their_glyphs() {
    let t_up = ConnectionPattern { top: LineStyle::Double, right: LineStyle::Single, bottom: LineStyle::NoLine, left: LineStyle::Single };
    assert_eq!(pattern_to_glyph(t_up), Some(208));
    let h = glyph_to_pattern(196).unwrap();
    assert_eq!(h, ConnectionPattern { top: LineStyle::NoLine, right: LineStyle::Single, bottom: LineStyle::NoLine, left: LineStyle::Single });
    // A single stub draws with the line it belongs to.
    let stub = ConnectionPattern { top: LineStyle::NoLine, right: LineStyle::Single, bottom: LineStyle::NoLine, left: LineStyle::NoLine };
    assert_eq!(pattern_to_glyph(stub), Some(196));
}
