use vstd::prelude::*;

use crate::document::Document;
use crate::glyph_palette::GlyphPalette;
use crate::selection::{max_int, min_int, saturating_sub_spec};
use crate::trusted::{decimal, decimal_string, string_from_chars, trim, trimmed};

verus! {

/// The glyph palette panel's own state.
pub struct GlyphPalettePanelState {
    /// Clicks write the selected glyph into slots (and right clicks clear
    /// them) when set; otherwise clicks pick a slot's glyph.
    pub edit_mode: bool,
    /// The keyboard cursor, kept inside the active palette when read.
    pub cursor: (u32, u32),
    /// The size shown in the size fields while it is being edited.
    pub pending_w: u32,
    pub pending_h: u32,
    /// The last save or load error, shown until dismissed.
    pub last_error: Option<String>,
}

impl Default for GlyphPalettePanelState {
    fn default() -> (s: Self)
        ensures
            !s.edit_mode,
            s.cursor == (0u32, 0u32),
            s.pending_w == 0,
            s.pending_h == 0,
            s.last_error is None,
    {
        GlyphPalettePanelState {
            edit_mode: false,
            cursor: (0, 0),
            pending_w: 0,
            pending_h: 0,
            last_error: None,
        }
    }
}

/// `v` moved by `d` and held within `0..=hi`.
pub open spec fn step_clamped(v: int, d: int, hi: int) -> int {
    if v + d < 0 {
        0
    } else if v + d > hi {
        hi
    } else {
        v + d
    }
}

impl GlyphPalettePanelState {
    /// Pulls the cursor inside a `w` x `h` palette.
    pub fn clamp_cursor(&mut self, w: u32, h: u32)
        ensures
            final(self).cursor == (
                min_int(old(self).cursor.0 as int, saturating_sub_spec(w as int, 1)) as u32,
                min_int(old(self).cursor.1 as int, saturating_sub_spec(h as int, 1)) as u32,
            ),
            final(self).edit_mode == old(self).edit_mode,
            final(self).pending_w == old(self).pending_w,
            final(self).pending_h == old(self).pending_h,
            final(self).last_error == old(self).last_error,
    {
        let mw = w.saturating_sub(1);
        let mh = h.saturating_sub(1);
        if self.cursor.0 > mw {
            self.cursor.0 = mw;
        }
        if self.cursor.1 > mh {
            self.cursor.1 = mh;
        }
    }

    /// Moves the cursor by `(dx, dy)` within the active palette (after
    /// pulling it inside), and makes the glyph under it, if any, the
    /// selected glyph.
    pub fn nav(&mut self, dx: i32, dy: i32, document: &mut Document)
        requires
            old(document).wf(),
            ({
                let p = old(document).glyph_palettes@[old(document).active_glyph_palette as int];
                &&& 1 <= p.w <= i32::MAX
                &&& 1 <= p.h <= i32::MAX
                &&& i32::MIN <= min_int(old(self).cursor.0 as int, p.w - 1) + dx <= i32::MAX
                &&& i32::MIN <= min_int(old(self).cursor.1 as int, p.h - 1) + dy <= i32::MAX
            }),
        ensures
            ({
                let p = old(document).glyph_palettes@[old(document).active_glyph_palette as int];
                let nx = step_clamped(min_int(old(self).cursor.0 as int, p.w - 1), dx as int, p.w - 1);
                let ny = step_clamped(min_int(old(self).cursor.1 as int, p.h - 1), dy as int, p.h - 1);
                &&& final(self).cursor == (nx as u32, ny as u32)
                &&& *final(document) == (Document {
                    selected_glyph: match p.slot(nx, ny) {
                        Some(g) => g,
                        None => old(document).selected_glyph,
                    },
                    ..*old(document)
                })
            }),
            final(self).edit_mode == old(self).edit_mode,
            final(self).pending_w == old(self).pending_w,
            final(self).pending_h == old(self).pending_h,
            final(self).last_error == old(self).last_error,
    {
        let p = document.active_glyph_palette();
        let pw = p.w;
        let ph = p.h;
        self.clamp_cursor(pw, ph);
        let tx = self.cursor.0 as i32 + dx;
        let ty = self.cursor.1 as i32 + dy;
        let hx = pw as i32 - 1;
        let hy = ph as i32 - 1;
        let nx: i32 = if tx < 0 {
            0
        } else if tx > hx {
            hx
        } else {
            tx
        };
        let ny: i32 = if ty < 0 {
            0
        } else if ty > hy {
            hy
        } else {
            ty
        };
        self.cursor = (nx as u32, ny as u32);
        if let Some(g) = document.active_glyph_palette().get(nx as u32, ny as u32) {
            document.selected_glyph = g;
        }
    }
}


/// Only the glyph palettes and the active one differ between `d0` and `d1`.
pub open spec fn only_palettes_changed(d0: Document, d1: Document) -> bool {
    d1 == Document { glyph_palettes: d1.glyph_palettes, active_glyph_palette: d1.active_glyph_palette, ..d0 }
}

/// The panel shows palette `p` afresh: its size in the size fields and the
/// cursor at the origin.
pub open spec fn panel_reset(s0: GlyphPalettePanelState, s1: GlyphPalettePanelState, p: GlyphPalette) -> bool {
    &&& s1.pending_w == p.w
    &&& s1.pending_h == p.h
    &&& s1.cursor == (0u32, 0u32)
    &&& s1.edit_mode == s0.edit_mode
    &&& s1.last_error == s0.last_error
}

/// The name a new palette gets: "Palette <k>".
pub open spec fn palette_name(k: nat) -> Seq<char> {
    "Palette "@ + decimal(k)
}

impl GlyphPalettePanelState {
    /// Brings the panel in line with the active palette at the start of a
    /// frame: the cursor is pulled inside, and unset size fields take the
    /// palette's size.
    pub fn sync_to_palette(&mut self, document: &Document)
        requires
            document.wf(),
        ensures
            ({
                let p = document.glyph_palettes@[document.active_glyph_palette as int];
                &&& final(self).cursor == (
                    min_int(old(self).cursor.0 as int, saturating_sub_spec(p.w as int, 1)) as u32,
                    min_int(old(self).cursor.1 as int, saturating_sub_spec(p.h as int, 1)) as u32,
                )
                &&& final(self).pending_w == if old(self).pending_w == 0 { p.w } else { old(self).pending_w }
                &&& final(self).pending_h == if old(self).pending_h == 0 { p.h } else { old(self).pending_h }
                &&& final(self).edit_mode == old(self).edit_mode
                &&& final(self).last_error == old(self).last_error
            }),
    {
        let p = document.active_glyph_palette();
        let (w, h) = (p.w, p.h);
        self.clamp_cursor(w, h);
        if self.pending_w == 0 {
            self.pending_w = w;
        }
        if self.pending_h == 0 {
            self.pending_h = h;
        }
    }
}

/// Makes palette `i` the active one, unless it already is.
pub fn select_glyph_palette(document: &mut Document, state: &mut GlyphPalettePanelState, i: usize)
    requires
        old(document).wf(),
        i < old(document).glyph_palettes@.len(),
    ensures
        final(document).wf(),
        if i == old(document).active_glyph_palette {
            *final(document) == *old(document) && *final(state) == *old(state)
        } else {
            &&& *final(document) == (Document { active_glyph_palette: i, ..*old(document) })
            &&& panel_reset(*old(state), *final(state), old(document).glyph_palettes@[i as int])
        },
{
    if i != document.active_glyph_palette {
        document.active_glyph_palette = i;
        state.pending_w = document.glyph_palettes[i].w;
        state.pending_h = document.glyph_palettes[i].h;
        state.cursor = (0, 0);
    }
}

/// Adds an empty 8 x 4 palette named "Palette <n + 1>" and makes it active.
pub fn add_glyph_palette(document: &mut Document, state: &mut GlyphPalettePanelState)
    requires
        old(document).wf(),
        old(document).glyph_palettes@.len() < u32::MAX,
    ensures
        final(document).wf(),
        only_palettes_changed(*old(document), *final(document)),
        ({
            let n = old(document).glyph_palettes@.len() as int;
            let p = final(document).glyph_palettes@[n];
            &&& final(document).glyph_palettes@.len() == n + 1
            &&& final(document).glyph_palettes@.subrange(0, n) == old(document).glyph_palettes@
            &&& final(document).active_glyph_palette == n
            &&& p.name@ == palette_name((n + 1) as nat)
            &&& p.w == 8
            &&& p.h == 4
            &&& forall|x: int, y: int| #[trigger] p.slot(x, y) == None::<u8>
            &&& panel_reset(*old(state), *final(state), p)
        }),
{
    let n = document.glyph_palettes.len();
    let mut name = String::from_str("Palette ");
    let digits = decimal_string((n + 1) as u32);
    name.append(digits.as_str());
    assert(max_int(8, 1) == 8 && max_int(4, 1) == 4);
    let p = GlyphPalette::new(name, 8, 4);
    document.glyph_palettes.push(p);
    document.active_glyph_palette = n;
    state.pending_w = 8;
    state.pending_h = 4;
    state.cursor = (0, 0);
    assert(document.glyph_palettes@.subrange(0, n as int) =~= old(document).glyph_palettes@);
}

/// Removes the active palette when there is another one; the palette that
/// takes its place, or the new last one, becomes active.
pub fn delete_glyph_palette(document: &mut Document, state: &mut GlyphPalettePanelState)
    requires
        old(document).wf(),
    ensures
        final(document).wf(),
        only_palettes_changed(*old(document), *final(document)),
        ({
            let n = old(document).glyph_palettes@.len() as int;
            let a = old(document).active_glyph_palette as int;
            if n > 1 {
                &&& final(document).glyph_palettes@ == old(document).glyph_palettes@.remove(a)
                &&& final(document).active_glyph_palette == if a >= n - 1 { n - 2 } else { a }
                &&& panel_reset(
                    *old(state),
                    *final(state),
                    final(document).glyph_palettes@[final(document).active_glyph_palette as int],
                )
            } else {
                *final(document) == *old(document) && *final(state) == *old(state)
            }
        }),
{
    if document.glyph_palettes.len() > 1 {
        let i = document.active_glyph_palette;
        document.glyph_palettes.remove(i);
        if document.active_glyph_palette >= document.glyph_palettes.len() {
            document.active_glyph_palette = document.glyph_palettes.len() - 1;
        }
        let a = document.active_glyph_palette;
        state.pending_w = document.glyph_palettes[a].w;
        state.pending_h = document.glyph_palettes[a].h;
        state.cursor = (0, 0);
    }
}

/// The size fields' frame logic: on `commit` (a drag or an edit ended) a
/// size that differs from the palette's resizes the active palette; while
/// not `editing`, the fields fall back to the palette's size.
pub fn commit_pending_size(document: &mut Document, state: &mut GlyphPalettePanelState, editing: bool, commit: bool)
    requires
        old(document).wf(),
        1 <= old(state).pending_w <= 32,
        1 <= old(state).pending_h <= 32,
    ensures
        final(document).wf(),
        only_palettes_changed(*old(document), *final(document)),
        final(document).active_glyph_palette == old(document).active_glyph_palette,
        ({
            let a = old(document).active_glyph_palette as int;
            let p0 = old(document).glyph_palettes@[a];
            let p1 = final(document).glyph_palettes@[a];
            let resized = commit && (old(state).pending_w != p0.w || old(state).pending_h != p0.h);
            &&& final(document).glyph_palettes@.len() == old(document).glyph_palettes@.len()
            &&& forall|k: int| 0 <= k < old(document).glyph_palettes@.len() && k != a ==> #[trigger] final(document).glyph_palettes@[k] == old(document).glyph_palettes@[k]
            &&& if resized {
                &&& p1.name == p0.name
                &&& p1.w == old(state).pending_w
                &&& p1.h == old(state).pending_h
                &&& forall|x: int, y: int| #[trigger] p1.slot(x, y) == if x < min_int(p0.w as int, p1.w as int) && y < min_int(p0.h as int, p1.h as int) {
                    p0.slot(x, y)
                } else {
                    None
                }
            } else {
                p1 == p0
            }
            &&& (final(state).pending_w, final(state).pending_h) == if !editing && (old(state).pending_w != p1.w || old(state).pending_h != p1.h) {
                (p1.w, p1.h)
            } else {
                (old(state).pending_w, old(state).pending_h)
            }
            &&& final(state).cursor == old(state).cursor
            &&& final(state).edit_mode == old(state).edit_mode
            &&& final(state).last_error == old(state).last_error
        }),
{
    let a = document.active_glyph_palette;
    let w0 = document.glyph_palettes[a].w;
    let h0 = document.glyph_palettes[a].h;
    if commit && (state.pending_w != w0 || state.pending_h != h0) {
        let pw = state.pending_w;
        let ph = state.pending_h;
        proof {
            let oh = document.glyph_palettes@[a as int].h as int;
            assert(min_int(max_int(ph as int, 1), oh) * max_int(pw as int, 1) <= 32 * 32) by (nonlinear_arith)
                requires
                    min_int(max_int(ph as int, 1), oh) <= 32,
                    0 <= min_int(max_int(ph as int, 1), oh),
                    max_int(pw as int, 1) <= 32,
            ;
            assert(max_int(pw as int, 1) * max_int(ph as int, 1) <= 32 * 32) by (nonlinear_arith)
                requires
                    1 <= max_int(pw as int, 1) <= 32,
                    1 <= max_int(ph as int, 1) <= 32,
            ;
        }
        document.glyph_palettes[a].resize(pw, ph);
    }
    let w1 = document.glyph_palettes[a].w;
    let h1 = document.glyph_palettes[a].h;
    if !editing && (state.pending_w != w1 || state.pending_h != h1) {
        state.pending_w = w1;
        state.pending_h = h1;
    }
}


/// A click on slot `(x, y)`: the primary button moves the cursor there and,
/// in edit mode, writes the selected glyph into the slot, or otherwise picks
/// the slot's glyph, if any; the secondary button empties the slot in edit
/// mode.
pub fn click_slot(
    document: &mut Document,
    state: &mut GlyphPalettePanelState,
    x: u32,
    y: u32,
    primary: bool,
    secondary: bool,
)
    requires
        old(document).wf(),
    ensures
        final(document).wf(),
        final(state).cursor == if primary { (x, y) } else { old(state).cursor },
        final(state).edit_mode == old(state).edit_mode,
        final(state).pending_w == old(state).pending_w,
        final(state).pending_h == old(state).pending_h,
        final(state).last_error == old(state).last_error,
        ({
            let a = old(document).active_glyph_palette as int;
            let p0 = old(document).glyph_palettes@[a];
            let p1 = final(document).glyph_palettes@[a];
            let edit = old(state).edit_mode;
            let picked = primary && !edit && p0.slot(x as int, y as int) is Some;
            &&& *final(document) == (Document {
                glyph_palettes: final(document).glyph_palettes,
                selected_glyph: if picked { p0.slot(x as int, y as int)->0 } else { old(document).selected_glyph },
                ..*old(document)
            })
            &&& final(document).glyph_palettes@.len() == old(document).glyph_palettes@.len()
            &&& forall|k: int| 0 <= k < old(document).glyph_palettes@.len() && k != a ==> #[trigger] final(document).glyph_palettes@[k] == old(document).glyph_palettes@[k]
            &&& p1.name == p0.name
            &&& p1.w == p0.w
            &&& p1.h == p0.h
            &&& forall|qx: int, qy: int| #[trigger] p1.slot(qx, qy) == if qx == x && qy == y && x < p0.w && y < p0.h && edit && (primary || secondary) {
                if secondary { None } else { Some(old(document).selected_glyph) }
            } else {
                p0.slot(qx, qy)
            }
        }),
{
    let a = document.active_glyph_palette;
    if primary {
        state.cursor = (x, y);
        if state.edit_mode {
            let g = document.selected_glyph;
            document.glyph_palettes[a].set(x, y, Some(g));
        } else if let Some(g) = document.glyph_palettes[a].get(x, y) {
            document.selected_glyph = g;
        }
    }
    if secondary && state.edit_mode {
        document.glyph_palettes[a].set(x, y, None);
    }
}

/// Adds a palette read from a file and makes it active; a palette whose
/// name is blank is named `fallback_name` (the file's name) instead.
pub fn add_loaded_palette(
    document: &mut Document,
    state: &mut GlyphPalettePanelState,
    palette: GlyphPalette,
    fallback_name: String,
)
    requires
        old(document).wf(),
        palette.wf(),
    ensures
        final(document).wf(),
        only_palettes_changed(*old(document), *final(document)),
        ({
            let n = old(document).glyph_palettes@.len() as int;
            let p = final(document).glyph_palettes@[n];
            &&& final(document).glyph_palettes@.len() == n + 1
            &&& final(document).glyph_palettes@.subrange(0, n) == old(document).glyph_palettes@
            &&& final(document).active_glyph_palette == n
            &&& p.name@ == if trimmed(palette.name@).len() == 0 { fallback_name@ } else { palette.name@ }
            &&& p.w == palette.w
            &&& p.h == palette.h
            &&& p.slots == palette.slots
            &&& panel_reset(*old(state), *final(state), p)
        }),
{
    let mut palette = palette;
    if trim(palette.name.as_str()).unicode_len() == 0 {
        palette.name = fallback_name;
    }
    let n = document.glyph_palettes.len();
    let w = palette.w;
    let h = palette.h;
    document.glyph_palettes.push(palette);
    document.active_glyph_palette = n;
    state.pending_w = w;
    state.pending_h = h;
    state.cursor = (0, 0);
    assert(document.glyph_palettes@.subrange(0, n as int) =~= old(document).glyph_palettes@);
}

/// Characters kept in a file name: ASCII letters and digits, `_` and `-`;
/// anything else becomes `_`.
pub open spec fn filename_char(c: char) -> char {
    let u = c as u32;
    if (48 <= u <= 57) || (65 <= u <= 90) || (97 <= u <= 122) || u == 95 || u == 45 {
        c
    } else {
        '_'
    }
}

/// The file name offered when saving palette `name`: the trimmed name with
/// unsafe characters replaced, and the `.gpal` extension; "palette.gpal" for
/// a blank name.
pub open spec fn default_filename_spec(name: Seq<char>) -> Seq<char> {
    let t = trimmed(name);
    if t.len() == 0 {
        "palette.gpal"@
    } else {
        t.map_values(|c: char| filename_char(c)) + ".gpal"@
    }
}

/// The file name offered when saving a palette named `name`.
pub fn default_filename(name: &str) -> (f: String)
    ensures
        f@ == default_filename_spec(name@),
{
    let t = trim(name);
    let n = t.unicode_len();
    let mut cs: Vec<char> = Vec::new();
    let mut i: usize = 0;
    while i < n
        invariant
            n == t@.len(),
            i <= n,
            cs@ == t@.subrange(0, i as int).map_values(|c: char| filename_char(c)),
        decreases n - i,
    {
        let c = t.get_char(i);
        let u = c as u32;
        let k = if (48 <= u && u <= 57) || (65 <= u && u <= 90) || (97 <= u && u <= 122) || u == 95 || u == 45 {
            c
        } else {
            '_'
        };
        cs.push(k);
        i = i + 1;
        assert(cs@ =~= t@.subrange(0, i as int).map_values(|c: char| filename_char(c)));
    }
    if n == 0 {
        String::from_str("palette.gpal")
    } else {
        let mut f = string_from_chars(cs.as_slice());
        f.append(".gpal");
        assert(t@.subrange(0, n as int) =~= t@);
        f
    }
}

} // verus!
