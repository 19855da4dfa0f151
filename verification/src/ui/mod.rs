//! The decisions behind the editor's panels and canvas: what a click, a drag
//! or a key does to the document and to the panels' own state.
pub mod canvas_view;
pub mod glyph_palette_panel;
pub mod layers_panel;
pub mod menu;
pub mod palette_panel;

use vstd::prelude::*;

use crate::document::Document;
use crate::history::{redo_post, undo_post, History};
use crate::tools::kinds::ToolKind;
use crate::ui::glyph_palette_panel::{step_clamped, GlyphPalettePanelState};
use crate::selection::min_int;

verus! {

/// Which glyph grid the arrow and WASD keys move in.
#[derive(Copy, Clone, Debug, PartialEq, Eq, Structural)]
pub enum GlyphNavTarget {
    /// The 16 x 16 grid of all glyphs.
    Standard,
    /// The active custom glyph palette.
    Custom,
}

impl Default for GlyphNavTarget {
    fn default() -> (t: Self)
        ensures
            t == GlyphNavTarget::Standard,
    {
        GlyphNavTarget::Standard
    }
}

/// Glyph `g` moved by `(dx, dy)` in the 16 x 16 glyph grid, wrapping
/// around at the edges.
pub open spec fn grid_step(g: u8, dx: int, dy: int) -> int {
    ((g / 16 + dy) % 16) * 16 + (g % 16 + dx) % 16
}

/// Moves glyph `g` by `(dx, dy)` in the 16 x 16 glyph grid, wrapping around.
pub fn glyph_grid_step(g: u8, dx: i32, dy: i32) -> (r: u8)
    requires
        dx <= i32::MAX - 15,
        dy <= i32::MAX - 15,
    ensures
        r == grid_step(g, dx as int, dy as int),
{
    let gx = ((g % 16) as i32 + dx).checked_rem_euclid(16);
    let gy = ((g / 16) as i32 + dy).checked_rem_euclid(16);
    match (gx, gy) {
        (Some(gx), Some(gy)) => (gy * 16 + gx) as u8,
        _ => 0,
    }
}

/// Moving back by the opposite step returns to the glyph one started from:
/// the wrapping grid has no dead ends.
pub proof fn lemma_grid_step_inverse(g: u8, dx: int, dy: int)
    ensures
        0 <= grid_step(g, dx, dy) < 256,
        grid_step(grid_step(g, dx, dy) as u8, -dx, -dy) == g,
{
    let gx = (g % 16) as int;
    let gy = (g / 16) as int;
    let nx = (gx + dx) % 16;
    let ny = (gy + dy) % 16;
    let r = ny * 16 + nx;
    assert(0 <= nx < 16 && 0 <= ny < 16);
    assert(r % 16 == nx && r / 16 == ny) by {
        lemma_div_mod_16(r, ny, nx);
    }
    assert((nx - dx) % 16 == gx) by {
        vstd::arithmetic::div_mod::lemma_fundamental_div_mod(gx + dx, 16);
        assert((nx - dx) == gx - 16 * ((gx + dx) / 16));
        vstd::arithmetic::div_mod::lemma_mod_multiples_vanish(-((gx + dx) / 16), gx, 16);
    }
    assert((ny - dy) % 16 == gy) by {
        vstd::arithmetic::div_mod::lemma_fundamental_div_mod(gy + dy, 16);
        assert((ny - dy) == gy - 16 * ((gy + dy) / 16));
        vstd::arithmetic::div_mod::lemma_mod_multiples_vanish(-((gy + dy) / 16), gy, 16);
    }
    assert(g == gy * 16 + gx);
}

proof fn lemma_div_mod_16(a: int, q: int, r: int)
    requires
        0 <= r < 16,
        a == q * 16 + r,
    ensures
        a / 16 == q,
        a % 16 == r,
{
    vstd::arithmetic::div_mod::lemma_fundamental_div_mod_converse(a, 16, q, r);
}

/// The keys and modifiers of one frame that the global shortcuts read.
#[derive(Copy, Clone, Debug)]
pub struct ShortcutKeys {
    /// Ctrl or Command is held.
    pub ctrl: bool,
    pub shift: bool,
    pub alt: bool,
    /// A text field has keyboard focus.
    pub text_has_focus: bool,
    pub z: bool,
    pub y: bool,
    pub b: bool,
    pub e: bool,
    pub i: bool,
    pub m: bool,
    pub x: bool,
    /// Left arrow or A.
    pub left: bool,
    /// Right arrow or D.
    pub right: bool,
    /// Up arrow or W.
    pub up: bool,
    /// Down arrow or S.
    pub down: bool,
}

/// The glyph-grid move the arrow keys ask for.
pub open spec fn nav_delta(k: ShortcutKeys) -> (int, int) {
    (
        (if k.right { 1int } else { 0int }) - (if k.left { 1int } else { 0int }),
        (if k.down { 1int } else { 0int }) - (if k.up { 1int } else { 0int }),
    )
}

/// `h1`, `d1` are `h0`, `d0` after an undo when `go`, else unchanged.
pub open spec fn undo_if(go: bool, h0: History, d0: Document, h1: History, d1: Document) -> bool {
    if go {
        exists|r: bool| undo_post(h0, d0, h1, d1, r)
    } else {
        h1 == h0 && d1 == d0
    }
}

/// `h1`, `d1` are `h0`, `d0` after a redo when `go`, else unchanged.
pub open spec fn redo_if(go: bool, h0: History, d0: Document, h1: History, d1: Document) -> bool {
    if go {
        exists|r: bool| redo_post(h0, d0, h1, d1, r)
    } else {
        h1 == h0 && d1 == d0
    }
}

/// The document after the plain-key shortcuts: each tool's hotkey picks it
/// (B pencil, E eraser, I eyedropper, M selection; of several, the last in
/// that order wins), X swaps the colors.
pub open spec fn tool_keys_applied(d0: Document, k: ShortcutKeys) -> Document {
    Document {
        active_tool: if k.m {
            ToolKind::RectSelect
        } else if k.i {
            ToolKind::Eyedropper
        } else if k.e {
            ToolKind::Eraser
        } else if k.b {
            ToolKind::Pencil
        } else {
            d0.active_tool
        },
        fg: if k.x {
            d0.bg
        } else {
            d0.fg
        },
        bg: if k.x {
            d0.fg
        } else {
            d0.bg
        },
        ..d0
    }
}

/// Undo and redo change the generation counter by at most one.
proof fn lemma_undo_redo_generation(h0: History, d0: Document, h1: History, d1: Document, r: bool, undo: bool)
    requires
        if undo {
            undo_post(h0, d0, h1, d1, r)
        } else {
            redo_post(h0, d0, h1, d1, r)
        },
    ensures
        d1.resources_generation <= d0.resources_generation + 1,
{
}

/// Applies one frame's global shortcuts.
///
/// With Ctrl (or Command): Ctrl+Z undoes, Ctrl+Y redoes, Ctrl+Shift+Z
/// redoes, in that order. Without Ctrl and Alt, and while no text field has
/// focus: the tool hotkeys and X act as in [`tool_keys_applied`], and the arrow keys or
/// WASD move the selected glyph, in the 16 x 16 grid (wrapping) or in the
/// custom palette, as `glyph_nav` says.
pub fn handle_global_shortcuts(
    document: &mut Document,
    history: &mut History,
    glyph_nav: GlyphNavTarget,
    panel: &mut GlyphPalettePanelState,
    keys: ShortcutKeys,
)
    requires
        old(document).wf(),
        old(history).wf(),
        old(history).fits(old(document).width as int, old(document).height as int),
        old(document).resources_generation <= u64::MAX - 3,
        glyph_nav == GlyphNavTarget::Custom ==> {
            let p = old(document).glyph_palettes@[old(document).active_glyph_palette as int];
            &&& 1 <= p.w <= i32::MAX
            &&& 1 <= p.h <= i32::MAX
        },
    ensures
        final(document).wf(),
        final(history).wf(),
        final(history).fits(final(document).width as int, final(document).height as int),
        keys.ctrl ==> {
            &&& *final(panel) == *old(panel)
            &&& exists|h1: History, d1: Document, h2: History, d2: Document|
                #![trigger redo_if(keys.y, h1, d1, h2, d2)]
                {
                    &&& undo_if(keys.z && !keys.shift, *old(history), *old(document), h1, d1)
                    &&& redo_if(keys.y, h1, d1, h2, d2)
                    &&& redo_if(keys.z && keys.shift, h2, d2, *final(history), *final(document))
                }
        },
        !keys.ctrl ==> {
            let d1 = if !keys.alt && !keys.text_has_focus {
                tool_keys_applied(*old(document), keys)
            } else {
                *old(document)
            };
            let (dx, dy) = nav_delta(keys);
            &&& *final(history) == *old(history)
            &&& if keys.alt || keys.text_has_focus || (dx == 0 && dy == 0) {
                &&& *final(document) == d1
                &&& *final(panel) == *old(panel)
            } else if glyph_nav == GlyphNavTarget::Standard {
                &&& *final(document) == (Document {
                    selected_glyph: grid_step(d1.selected_glyph, dx, dy) as u8,
                    ..d1
                })
                &&& *final(panel) == *old(panel)
            } else {
                let p = d1.glyph_palettes@[d1.active_glyph_palette as int];
                let nx = step_clamped(min_int(old(panel).cursor.0 as int, p.w - 1), dx, p.w - 1);
                let ny = step_clamped(min_int(old(panel).cursor.1 as int, p.h - 1), dy, p.h - 1);
                &&& final(panel).cursor == (nx as u32, ny as u32)
                &&& final(panel).edit_mode == old(panel).edit_mode
                &&& final(panel).pending_w == old(panel).pending_w
                &&& final(panel).pending_h == old(panel).pending_h
                &&& final(panel).last_error == old(panel).last_error
                &&& *final(document) == (Document {
                    selected_glyph: match p.slot(nx, ny) {
                        Some(g) => g,
                        None => d1.selected_glyph,
                    },
                    ..d1
                })
            }
        },
{
    if keys.ctrl {
        ctrl_shortcuts(document, history, keys);
    } else {
        plain_shortcuts(document, glyph_nav, panel, keys);
    }
}

/// The Ctrl shortcuts: undo and redo.
fn ctrl_shortcuts(document: &mut Document, history: &mut History, keys: ShortcutKeys)
    requires
        old(document).wf(),
        old(history).wf(),
        old(history).fits(old(document).width as int, old(document).height as int),
        old(document).resources_generation <= u64::MAX - 3,
    ensures
        final(document).wf(),
        final(history).wf(),
        final(history).fits(final(document).width as int, final(document).height as int),
        exists|h1: History, d1: Document, h2: History, d2: Document|
            #![trigger redo_if(keys.y, h1, d1, h2, d2)]
            {
                &&& undo_if(keys.z && !keys.shift, *old(history), *old(document), h1, d1)
                &&& redo_if(keys.y, h1, d1, h2, d2)
                &&& redo_if(keys.z && keys.shift, h2, d2, *final(history), *final(document))
            },
{
    let ghost h0 = *history;
    let ghost d0 = *document;
    if keys.z && !keys.shift {
        let r = history.undo(document);
        proof {
            lemma_undo_redo_generation(h0, d0, *history, *document, r, true);
        }
    }
    let ghost h1 = *history;
    let ghost d1 = *document;
    if keys.y {
        let r = history.redo(document);
        proof {
            lemma_undo_redo_generation(h1, d1, *history, *document, r, false);
        }
    }
    let ghost h2 = *history;
    let ghost d2 = *document;
    if keys.z && keys.shift {
        history.redo(document);
    }
    assert(undo_if(keys.z && !keys.shift, h0, d0, h1, d1));
    assert(redo_if(keys.y, h1, d1, h2, d2));
    assert(redo_if(keys.z && keys.shift, h2, d2, *history, *document));
}

/// The shortcuts without Ctrl: tool keys, color swap and glyph moves.
fn plain_shortcuts(
    document: &mut Document,
    glyph_nav: GlyphNavTarget,
    panel: &mut GlyphPalettePanelState,
    keys: ShortcutKeys,
)
    requires
        old(document).wf(),
        glyph_nav == GlyphNavTarget::Custom ==> {
            let p = old(document).glyph_palettes@[old(document).active_glyph_palette as int];
            &&& 1 <= p.w <= i32::MAX
            &&& 1 <= p.h <= i32::MAX
        },
    ensures
        final(document).wf(),
        ({
            let d1 = if !keys.alt && !keys.text_has_focus {
                tool_keys_applied(*old(document), keys)
            } else {
                *old(document)
            };
            let (dx, dy) = nav_delta(keys);
            if keys.alt || keys.text_has_focus || (dx == 0 && dy == 0) {
                &&& *final(document) == d1
                &&& *final(panel) == *old(panel)
            } else if glyph_nav == GlyphNavTarget::Standard {
                &&& *final(document) == (Document {
                    selected_glyph: grid_step(d1.selected_glyph, dx, dy) as u8,
                    ..d1
                })
                &&& *final(panel) == *old(panel)
            } else {
                let p = d1.glyph_palettes@[d1.active_glyph_palette as int];
                let nx = step_clamped(min_int(old(panel).cursor.0 as int, p.w - 1), dx, p.w - 1);
                let ny = step_clamped(min_int(old(panel).cursor.1 as int, p.h - 1), dy, p.h - 1);
                &&& final(panel).cursor == (nx as u32, ny as u32)
                &&& final(panel).edit_mode == old(panel).edit_mode
                &&& final(panel).pending_w == old(panel).pending_w
                &&& final(panel).pending_h == old(panel).pending_h
                &&& final(panel).last_error == old(panel).last_error
                &&& *final(document) == (Document {
                    selected_glyph: match p.slot(nx, ny) {
                        Some(g) => g,
                        None => d1.selected_glyph,
                    },
                    ..d1
                })
            }
        }),
{
    apply_tool_keys(document, keys);
    if keys.text_has_focus || keys.alt {
        return;
    }
    let dx: i32 = (if keys.right { 1i32 } else { 0i32 }) - (if keys.left { 1i32 } else { 0i32 });
    let dy: i32 = (if keys.down { 1i32 } else { 0i32 }) - (if keys.up { 1i32 } else { 0i32 });
    if dx == 0 && dy == 0 {
        return;
    }
    move_glyph(document, glyph_nav, panel, dx, dy);
}

/// The tool hotkeys and X, unless Alt is held or a text field has focus.
fn apply_tool_keys(document: &mut Document, keys: ShortcutKeys)
    requires
        old(document).wf(),
    ensures
        final(document).wf(),
        *final(document) == if !keys.alt && !keys.text_has_focus {
            tool_keys_applied(*old(document), keys)
        } else {
            *old(document)
        },
{
    if !keys.alt && !keys.text_has_focus {
        if keys.b {
            document.active_tool = ToolKind::Pencil;
        }
        if keys.e {
            document.active_tool = ToolKind::Eraser;
        }
        if keys.i {
            document.active_tool = ToolKind::Eyedropper;
        }
        if keys.m {
            document.active_tool = ToolKind::RectSelect;
        }
        if keys.x {
            let fg = document.fg;
            document.fg = document.bg;
            document.bg = fg;
        }
    }
}

/// Moves the selected glyph by `(dx, dy)` in the grid `glyph_nav` names.
fn move_glyph(document: &mut Document, glyph_nav: GlyphNavTarget, panel: &mut GlyphPalettePanelState, dx: i32, dy: i32)
    requires
        old(document).wf(),
        -1 <= dx <= 1,
        -1 <= dy <= 1,
        glyph_nav == GlyphNavTarget::Custom ==> {
            let p = old(document).glyph_palettes@[old(document).active_glyph_palette as int];
            &&& 1 <= p.w <= i32::MAX
            &&& 1 <= p.h <= i32::MAX
        },
    ensures
        final(document).wf(),
        glyph_nav == GlyphNavTarget::Standard ==> {
            &&& *final(document) == (Document {
                selected_glyph: grid_step(old(document).selected_glyph, dx as int, dy as int) as u8,
                ..*old(document)
            })
            &&& *final(panel) == *old(panel)
        },
        glyph_nav == GlyphNavTarget::Custom ==> {
            let p = old(document).glyph_palettes@[old(document).active_glyph_palette as int];
            let nx = step_clamped(min_int(old(panel).cursor.0 as int, p.w - 1), dx as int, p.w - 1);
            let ny = step_clamped(min_int(old(panel).cursor.1 as int, p.h - 1), dy as int, p.h - 1);
            &&& final(panel).cursor == (nx as u32, ny as u32)
            &&& final(panel).edit_mode == old(panel).edit_mode
            &&& final(panel).pending_w == old(panel).pending_w
            &&& final(panel).pending_h == old(panel).pending_h
            &&& final(panel).last_error == old(panel).last_error
            &&& *final(document) == (Document {
                selected_glyph: match p.slot(nx, ny) {
                    Some(g) => g,
                    None => old(document).selected_glyph,
                },
                ..*old(document)
            })
        },
{
    match glyph_nav {
        GlyphNavTarget::Standard => {
            document.selected_glyph = glyph_grid_step(document.selected_glyph, dx, dy);
        },
        GlyphNavTarget::Custom => {
            panel.nav(dx, dy, document);
        },
    }
}

} // verus!
