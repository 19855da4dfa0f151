use vstd::prelude::*;

use crate::document::Document;
use crate::palette::{dos_colors, rgba, Color, Palette};
use crate::trusted::{decimal, decimal_string};

verus! {

/// What one frame of clicks in the color palette panel asks for.
#[derive(Copy, Clone, Debug)]
pub struct PaletteEdits {
    /// A swatch picked as the foreground (left click).
    pub fg_pick: Option<Color>,
    /// A swatch picked as the background (right click).
    pub bg_pick: Option<Color>,
    /// A swatch recolored from its context menu: its index and new RGB.
    pub edit: Option<(usize, [u8; 3])>,
    /// A swatch deleted from its context menu.
    pub delete: Option<usize>,
    /// "+ Add" was clicked: a grey swatch is appended.
    pub add_color: bool,
}

/// `c` with its red, green and blue replaced; alpha is kept.
pub open spec fn with_rgb(c: Color, rgb: [u8; 3]) -> Color {
    rgba(rgb[0], rgb[1], rgb[2], c.0[3])
}

/// Replaces the red, green and blue of `c`, keeping its alpha.
pub fn set_rgb(c: &mut Color, rgb: [u8; 3])
    ensures
        *final(c) == with_rgb(*old(c), rgb),
{
    let a = c.0[3];
    *c = Color([rgb[0], rgb[1], rgb[2], a]);
}

/// The swatches after `e`: the recolor, then the deletion, then the new
/// grey swatch; an index past the end is ignored.
pub open spec fn colors_after(colors: Seq<Color>, e: PaletteEdits) -> Seq<Color> {
    let c1 = match e.edit {
        Some((i, rgb)) => if i < colors.len() {
            colors.update(i as int, with_rgb(colors[i as int], rgb))
        } else {
            colors
        },
        None => colors,
    };
    let c2 = match e.delete {
        Some(i) => if i < c1.len() {
            c1.remove(i as int)
        } else {
            c1
        },
        None => c1,
    };
    if e.add_color {
        c2.push(rgba(128, 128, 128, 255))
    } else {
        c2
    }
}

/// Carries out one frame of palette clicks: picked swatches become the
/// foreground and background colors, and the active palette's swatches are
/// edited as [`colors_after`] says.
pub fn apply_palette_edits(document: &mut Document, e: PaletteEdits)
    requires
        old(document).wf(),
    ensures
        final(document).wf(),
        *final(document) == (Document {
            fg: match e.fg_pick {
                Some(c) => c,
                None => old(document).fg,
            },
            bg: match e.bg_pick {
                Some(c) => c,
                None => old(document).bg,
            },
            palettes: final(document).palettes,
            ..*old(document)
        }),
        final(document).palettes@.len() == old(document).palettes@.len(),
        forall|k: int|
            0 <= k < old(document).palettes@.len() && k != old(document).active_palette ==> #[trigger] final(document).palettes@[k]
                == old(document).palettes@[k],
        old(document).active_palette < old(document).palettes@.len() ==> {
            let a = old(document).active_palette as int;
            &&& final(document).palettes@[a].name == old(document).palettes@[a].name
            &&& final(document).palettes@[a].colors@ == colors_after(old(document).palettes@[a].colors@, e)
        },
{
    if let Some(c) = e.fg_pick {
        document.fg = c;
    }
    if let Some(c) = e.bg_pick {
        document.bg = c;
    }
    let a = document.active_palette;
    if a < document.palettes.len() {
        let ghost c0 = document.palettes@[a as int].colors@;
        if let Some((i, rgb)) = e.edit {
            if i < document.palettes[a].colors.len() {
                let mut c = document.palettes[a].colors[i];
                set_rgb(&mut c, rgb);
                document.palettes[a].colors.set(i, c);
            }
        }
        if let Some(i) = e.delete {
            if i < document.palettes[a].colors.len() {
                document.palettes[a].colors.remove(i);
            }
        }
        if e.add_color {
            document.palettes[a].colors.push(Color::rgb(128, 128, 128));
        }
        assert(document.palettes@[a as int].colors@ =~= colors_after(c0, e));
    }
}

/// Adds a palette named "Palette <n + 1>" holding the DOS colors and makes
/// it active.
pub fn add_palette(document: &mut Document)
    requires
        old(document).wf(),
        old(document).palettes@.len() < u32::MAX,
    ensures
        final(document).wf(),
        *final(document) == (Document {
            palettes: final(document).palettes,
            active_palette: old(document).palettes@.len() as usize,
            ..*old(document)
        }),
        final(document).palettes@.len() == old(document).palettes@.len() + 1,
        final(document).palettes@.subrange(0, old(document).palettes@.len() as int) == old(document).palettes@,
        final(document).palettes@.last().name@ == "Palette "@ + decimal((old(document).palettes@.len() + 1) as nat),
        final(document).palettes@.last().colors@ == dos_colors(),
{
    let n = document.palettes.len();
    let mut name = String::from_str("Palette ");
    let digits = decimal_string((n + 1) as u32);
    name.append(digits.as_str());
    document.palettes.push(Palette::default_dos_variant(name));
    document.active_palette = n;
    assert(document.palettes@.subrange(0, n as int) =~= old(document).palettes@);
}

} // verus!
