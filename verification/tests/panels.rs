use txpaint::document::Document;
use txpaint::font::FontAtlas;
use txpaint::glyph_palette::GlyphPalette;
use txpaint::palette::Color;
use txpaint::renderer::{atlas_rgba, layer_render_requests, layer_texture_bytes, rebuild_plan};
use txpaint::tile::Tile;
use txpaint::ui::glyph_palette_panel::{
    add_glyph_palette, add_loaded_palette, click_slot, commit_pending_size, default_filename,
    delete_glyph_palette, select_glyph_palette, GlyphPalettePanelState,
};
use txpaint::ui::palette_panel::{add_palette, apply_palette_edits, set_rgb, PaletteEdits};

fn font() -> FontAtlas {
    FontAtlas { name: "test".to_string(), cell_w: 1, cell_h: 1, mask: vec![0; 256] }
}

fn no_edits() -> PaletteEdits {
    PaletteEdits { fg_pick: None, bg_pick: None, edit: None, delete: None, add_color: false }
}

#[test]
fn default_filenames() {
    assert_eq!(default_filename("  My Palette! "), "My_Palette_.gpal");
    assert_eq!(default_filename("box-set_2"), "box-set_2.gpal");
    assert_eq!(default_filename(" \t "), "palette.gpal");
    assert_eq!(default_filename("é"), "_.gpal");
}

#[test]
fn clamp_cursor_pulls_inside() {
    let mut s = GlyphPalettePanelState::default();
    s.cursor = (10, 2);
    s.clamp_cursor(4, 8);
    assert_eq!(s.cursor, (3, 2));
    s.clamp_cursor(0, 0);
    assert_eq!(s.cursor, (0, 0));
}

#[test]
fn palettes_are_added_selected_and_deleted() {
    let mut d = Document::new_with_size(2, 2, font());
    let mut s = GlyphPalettePanelState::default();
    s.cursor = (3, 3);
    add_glyph_palette(&mut d, &mut s);
    assert_eq!(d.glyph_palettes.len(), 2);
    assert_eq!(d.glyph_palettes[1].name, "Palette 2");
    assert_eq!(d.active_glyph_palette, 1);
    assert_eq!((s.pending_w, s.pending_h, s.cursor), (8, 4, (0, 0)));
    d.glyph_palettes[0].resize(5, 6);
    select_glyph_palette(&mut d, &mut s, 0);
    assert_eq!(d.active_glyph_palette, 0);
    assert_eq!((s.pending_w, s.pending_h), (5, 6));
    delete_glyph_palette(&mut d, &mut s);
    assert_eq!(d.glyph_palettes.len(), 1);
    assert_eq!(d.glyph_palettes[0].name, "Palette 2");
    assert_eq!(d.active_glyph_palette, 0);
    delete_glyph_palette(&mut d, &mut s);
    assert_eq!(d.glyph_palettes.len(), 1);
}

#[test]
fn pending_size_commits_and_falls_back() {
    let mut d = Document::new_with_size(2, 2, font());
    let mut s = GlyphPalettePanelState::default();
    d.glyph_palettes[0].set(1, 1, Some(9));
    s.pending_w = 3;
    s.pending_h = 2;
    commit_pending_size(&mut d, &mut s, true, false);
    assert_eq!((d.glyph_palettes[0].w, d.glyph_palettes[0].h), (8, 4));
    assert_eq!((s.pending_w, s.pending_h), (3, 2));
    commit_pending_size(&mut d, &mut s, false, true);
    assert_eq!((d.glyph_palettes[0].w, d.glyph_palettes[0].h), (3, 2));
    assert_eq!(d.glyph_palettes[0].get(1, 1), Some(9));
    s.pending_w = 20;
    commit_pending_size(&mut d, &mut s, false, false);
    assert_eq!(s.pending_w, 3);
}

#[test]
fn slot_clicks_use_or_edit() {
    let mut d = Document::new_with_size(2, 2, font());
    let mut s = GlyphPalettePanelState::default();
    d.selected_glyph = 42;
    click_slot(&mut d, &mut s, 2, 1, true, false);
    assert_eq!(s.cursor, (2, 1));
    assert_eq!(d.glyph_palettes[0].get(2, 1), None);
    assert_eq!(d.selected_glyph, 42);
    s.edit_mode = true;
    click_slot(&mut d, &mut s, 2, 1, true, false);
    assert_eq!(d.glyph_palettes[0].get(2, 1), Some(42));
    s.edit_mode = false;
    d.selected_glyph = 1;
    click_slot(&mut d, &mut s, 2, 1, true, false);
    assert_eq!(d.selected_glyph, 42);
    s.edit_mode = true;
    click_slot(&mut d, &mut s, 2, 1, false, true);
    assert_eq!(d.glyph_palettes[0].get(2, 1), None);
}

#[test]
fn loaded_palette_gets_a_name() {
    let mut d = Document::new_with_size(2, 2, font());
    let mut s = GlyphPalettePanelState::default();
    let p = GlyphPalette::new("  ".to_string(), 2, 3);
    add_loaded_palette(&mut d, &mut s, p, "boxes".to_string());
    assert_eq!(d.glyph_palettes[1].name, "boxes");
    assert_eq!(d.active_glyph_palette, 1);
    assert_eq!((s.pending_w, s.pending_h), (2, 3));
    let p = GlyphPalette::new("Mine".to_string(), 1, 1);
    add_loaded_palette(&mut d, &mut s, p, "other".to_string());
    assert_eq!(d.glyph_palettes[2].name, "Mine");
}

#[test]
fn palette_edits_apply_in_order() {
    let mut d = Document::new_with_size(2, 2, font());
    let before = d.palettes[0].colors.clone();
    let e = PaletteEdits {
        fg_pick: Some(before[4]),
        bg_pick: Some(before[1]),
        edit: Some((0, [9, 8, 7])),
        delete: Some(1),
        add_color: true,
    };
    apply_palette_edits(&mut d, e);
    assert_eq!(d.fg, before[4]);
    assert_eq!(d.bg, before[1]);
    let c = &d.palettes[0].colors;
    assert_eq!(c.len(), 16);
    assert_eq!(c[0], Color([9, 8, 7, 255]));
    assert_eq!(c[1], before[2]);
    assert_eq!(c[15], Color([128, 128, 128, 255]));
    apply_palette_edits(&mut d, PaletteEdits { delete: Some(99), ..no_edits() });
    assert_eq!(d.palettes[0].colors.len(), 16);
}

#[test]
fn set_rgb_keeps_alpha() {
    let mut c = Color([1, 2, 3, 4]);
    set_rgb(&mut c, [5, 6, 7]);
    assert_eq!(c, Color([5, 6, 7, 4]));
}

#[test]
fn new_palettes_are_dos_copies() {
    let mut d = Document::new_with_size(2, 2, font());
    add_palette(&mut d);
    assert_eq!(d.palettes.len(), 2);
    assert_eq!(d.palettes[1].name, "Palette 2");
    assert_eq!(d.palettes[1].colors, d.palettes[0].colors);
    assert_eq!(d.active_palette, 1);
}

#[test]
fn render_requests_take_full_uploads_then_dirty_cells() {
    let mut d = Document::new_with_size(2, 2, font());
    let r = layer_render_requests(&mut d);
    assert_eq!(r.len(), 1);
    assert_eq!(r[0].full_tiles.as_ref().unwrap().len(), 4);
    assert!(r[0].dirty_cells.is_empty());
    assert!(!d.layers[0].full_upload);
    let t = Tile { glyph: 3, fg: Color([1, 1, 1, 255]), bg: Color([0, 0, 0, 255]) };
    d.layers[0].set(2, 1, 1, t);
    let r = layer_render_requests(&mut d);
    assert!(r[0].full_tiles.is_none());
    assert_eq!(r[0].dirty_cells, vec![(1, 1, t)]);
    // Asked again, the layer sends nothing.
    let r = layer_render_requests(&mut d);
    assert!(r[0].full_tiles.is_none());
    assert!(r[0].dirty_cells.is_empty());
    assert!(r[0].visible);
}

#[test]
fn texture_bytes_split_glyphs_and_colors() {
    let tiles = [
        Tile { glyph: 1, fg: Color([1, 2, 3, 4]), bg: Color([5, 6, 7, 8]) },
        Tile { glyph: 2, fg: Color([9, 10, 11, 12]), bg: Color([13, 14, 15, 16]) },
    ];
    let (g, f, b) = layer_texture_bytes(&tiles);
    assert_eq!(g, vec![1, 2]);
    assert_eq!(f, vec![1, 2, 3, 4, 9, 10, 11, 12]);
    assert_eq!(b, vec![5, 6, 7, 8, 13, 14, 15, 16]);
    assert_eq!(atlas_rgba(&[7, 0]), vec![255, 255, 255, 7, 255, 255, 255, 0]);
}

#[test]
fn rebuild_plan_decisions() {
    assert_eq!(rebuild_plan(false, 1, 1, (2, 2), 1, 1, (2, 2), 1, 1), (true, false));
    assert_eq!(rebuild_plan(true, 1, 1, (2, 2), 1, 1, (2, 2), 1, 1), (false, false));
    assert_eq!(rebuild_plan(true, 1, 2, (2, 2), 1, 1, (3, 2), 1, 1), (true, true));
    assert_eq!(rebuild_plan(true, 1, 1, (2, 2), 1, 1, (2, 2), 2, 1), (false, true));
    assert_eq!(rebuild_plan(true, 1, 1, (2, 2), 1, 1, (2, 2), 1, 5), (false, true));
}
