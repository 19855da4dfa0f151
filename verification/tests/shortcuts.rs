use txpaint::document::Document;
use txpaint::font::FontAtlas;
use txpaint::history::History;
use txpaint::tools::{apply, ToolKind};
use txpaint::ui::glyph_palette_panel::GlyphPalettePanelState;
use txpaint::ui::{glyph_grid_step, handle_global_shortcuts, GlyphNavTarget, ShortcutKeys};

fn font() -> FontAtlas {
    FontAtlas { name: "test".to_string(), cell_w: 1, cell_h: 1, mask: vec![0; 256] }
}

fn keys() -> ShortcutKeys {
    ShortcutKeys {
        ctrl: false,
        shift: false,
        alt: false,
        text_has_focus: false,
        z: false,
        y: false,
        b: false,
        e: false,
        i: false,
        m: false,
        x: false,
        left: false,
        right: false,
        up: false,
        down: false,
    }
}

#[test]
fn glyph_grid_wraps_around() {
    assert_eq!(glyph_grid_step(0, 1, 0), 1);
    assert_eq!(glyph_grid_step(15, 1, 0), 0);
    assert_eq!(glyph_grid_step(0, -1, 0), 15);
    assert_eq!(glyph_grid_step(0, 0, -1), 240);
    assert_eq!(glyph_grid_step(255, 1, 1), 0);
    assert_eq!(glyph_grid_step(65, 0, 1), 81);
}

#[test]
fn stepping_back_returns_to_the_glyph() {
    for g in [0u8, 15, 16, 100, 255] {
        for (dx, dy) in [(1, 0), (-1, 0), (0, 1), (0, -1), (1, -1), (17, -33)] {
            assert_eq!(glyph_grid_step(glyph_grid_step(g, dx, dy), -dx, -dy), g);
        }
    }
}

#[test]
fn ctrl_z_undoes_and_ctrl_y_redoes() {
    let mut d = Document::new_with_size(2, 2, font());
    let mut h = History::new();
    let mut panel = GlyphPalettePanelState::default();
    apply(&mut d, &mut h, 0, 0);
    assert_eq!(d.layers[0].tiles[0].glyph, 65);
    let k = ShortcutKeys { ctrl: true, z: true, ..keys() };
    handle_global_shortcuts(&mut d, &mut h, GlyphNavTarget::Standard, &mut panel, k);
    assert_eq!(d.layers[0].tiles[0].glyph, 0);
    let k = ShortcutKeys { ctrl: true, y: true, ..keys() };
    handle_global_shortcuts(&mut d, &mut h, GlyphNavTarget::Standard, &mut panel, k);
    assert_eq!(d.layers[0].tiles[0].glyph, 65);
    let k = ShortcutKeys { ctrl: true, z: true, ..keys() };
    handle_global_shortcuts(&mut d, &mut h, GlyphNavTarget::Standard, &mut panel, k);
    let k = ShortcutKeys { ctrl: true, shift: true, z: true, ..keys() };
    handle_global_shortcuts(&mut d, &mut h, GlyphNavTarget::Standard, &mut panel, k);
    assert_eq!(d.layers[0].tiles[0].glyph, 65);
}

#[test]
fn tool_keys_and_color_swap() {
    let mut d = Document::new_with_size(2, 2, font());
    let mut h = History::new();
    let mut panel = GlyphPalettePanelState::default();
    let fg = d.fg;
    let bg = d.bg;
    let k = ShortcutKeys { m: true, x: true, ..keys() };
    handle_global_shortcuts(&mut d, &mut h, GlyphNavTarget::Standard, &mut panel, k);
    assert_eq!(d.active_tool, ToolKind::RectSelect);
    assert_eq!(d.fg, bg);
    assert_eq!(d.bg, fg);
    let k = ShortcutKeys { e: true, ..keys() };
    handle_global_shortcuts(&mut d, &mut h, GlyphNavTarget::Standard, &mut panel, k);
    assert_eq!(d.active_tool, ToolKind::Eraser);
    let k = ShortcutKeys { i: true, b: true, ..keys() };
    handle_global_shortcuts(&mut d, &mut h, GlyphNavTarget::Standard, &mut panel, k);
    assert_eq!(d.active_tool, ToolKind::Eyedropper);
    let k = ShortcutKeys { b: true, ..keys() };
    handle_global_shortcuts(&mut d, &mut h, GlyphNavTarget::Standard, &mut panel, k);
    assert_eq!(d.active_tool, ToolKind::Pencil);
    // Ignored while a text field has focus.
    let k = ShortcutKeys { m: true, text_has_focus: true, ..keys() };
    handle_global_shortcuts(&mut d, &mut h, GlyphNavTarget::Standard, &mut panel, k);
    assert_eq!(d.active_tool, ToolKind::Pencil);
}

#[test]
fn arrows_move_the_selected_glyph() {
    let mut d = Document::new_with_size(2, 2, font());
    let mut h = History::new();
    let mut panel = GlyphPalettePanelState::default();
    assert_eq!(d.selected_glyph, 65);
    let k = ShortcutKeys { right: true, down: true, ..keys() };
    handle_global_shortcuts(&mut d, &mut h, GlyphNavTarget::Standard, &mut panel, k);
    assert_eq!(d.selected_glyph, 82);
    let k = ShortcutKeys { left: true, right: true, ..keys() };
    handle_global_shortcuts(&mut d, &mut h, GlyphNavTarget::Standard, &mut panel, k);
    assert_eq!(d.selected_glyph, 82);
    let k = ShortcutKeys { up: true, alt: true, ..keys() };
    handle_global_shortcuts(&mut d, &mut h, GlyphNavTarget::Standard, &mut panel, k);
    assert_eq!(d.selected_glyph, 82);
}

#[test]
fn arrows_move_the_custom_palette_cursor() {
    let mut d = Document::new_with_size(2, 2, font());
    let mut h = History::new();
    let mut panel = GlyphPalettePanelState::default();
    d.glyph_palettes[0].set(1, 0, Some(200));
    let k = ShortcutKeys { right: true, ..keys() };
    handle_global_shortcuts(&mut d, &mut h, GlyphNavTarget::Custom, &mut panel, k);
    assert_eq!(panel.cursor, (1, 0));
    assert_eq!(d.selected_glyph, 200);
    let k = ShortcutKeys { up: true, ..keys() };
    handle_global_shortcuts(&mut d, &mut h, GlyphNavTarget::Custom, &mut panel, k);
    assert_eq!(panel.cursor, (1, 0));
    let k = ShortcutKeys { down: true, ..keys() };
    handle_global_shortcuts(&mut d, &mut h, GlyphNavTarget::Custom, &mut panel, k);
    assert_eq!(panel.cursor, (1, 1));
    assert_eq!(d.selected_glyph, 200);
}
