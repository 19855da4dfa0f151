use vstd::prelude::*;
use vstd::std_specs::cmp::PartialEqSpecImpl;

use crate::palette::{rgba, Color};

verus! {

/// The background that means "transparent": magenta, the `.xp` convention.
pub open spec fn transparent_bg_spec() -> Color {
    rgba(255, 0, 255, 255)
}

/// The transparent background color.
pub fn transparent_bg() -> (c: Color)
    ensures
        c == transparent_bg_spec(),
{
    Color([255, 0, 255, 255])
}

/// One canvas cell: a CP437 glyph with foreground and background colors.
#[derive(Copy, Clone, Debug, Eq)]
pub struct Tile {
    pub glyph: u8,
    pub fg: Color,
    pub bg: Color,
}

impl PartialEq for Tile {
    fn eq(&self, other: &Self) -> (r: bool) {
        self.glyph == other.glyph && self.fg == other.fg && self.bg == other.bg
    }
}

impl PartialEqSpecImpl for Tile {
    open spec fn obeys_eq_spec() -> bool {
        true
    }

    open spec fn eq_spec(&self, other: &Self) -> bool {
        *self == *other
    }
}

/// The blank tile: glyph 0, white foreground, transparent background.
pub open spec fn blank_tile() -> Tile {
    Tile { glyph: 0, fg: rgba(255, 255, 255, 255), bg: transparent_bg_spec() }
}

impl Default for Tile {
    fn default() -> (t: Tile)
        ensures
            t == blank_tile(),
    {
        Tile { glyph: 0, fg: Color([255, 255, 255, 255]), bg: transparent_bg() }
    }
}

} // verus!
