use vstd::prelude::*;

use crate::font::FontAtlas;
use crate::glyph_palette::GlyphPalette;
use crate::layer::Layer;
use crate::palette::{dos_colors, rgba, Color, Palette};
use crate::selection::max_int;
use crate::tile::blank_tile;
use crate::tools::kinds::{PencilMode, RectMode, SelectMode, ToolKind};

pub use crate::selection::{oval_cells, CellRect, SelectionMask};

verus! {

/// An open drawing: canvas size, layers, palettes, the current brush and tool,
/// the selection, and the font the canvas is drawn with.
pub struct Document {
    pub width: u32,
    pub height: u32,
    pub layers: Vec<Layer>,
    pub active_layer: usize,
    pub palettes: Vec<Palette>,
    pub active_palette: usize,
    pub fg: Color,
    pub bg: Color,
    pub selected_glyph: u8,
    /// Custom glyph palettes; the active one drives the palette panel.
    pub glyph_palettes: Vec<GlyphPalette>,
    pub active_glyph_palette: usize,
    pub font: FontAtlas,
    pub bundled_font_index: usize,
    pub active_tool: ToolKind,
    pub pencil_mode: PencilMode,
    pub select_mode: SelectMode,
    pub rect_mode: RectMode,
    /// The selection; `None` when no cell is selected.
    pub selection: Option<SelectionMask>,
    /// Bumped whenever the renderer must rebuild its resources.
    pub resources_generation: u64,
}

impl Document {
    /// The canvas is non-empty and addressable with 32-bit cell indices;
    /// there is an active layer and an active glyph palette; every layer and
    /// the selection are sized for the canvas.
    pub open spec fn wf(&self) -> bool {
        &&& 1 <= self.width
        &&& 1 <= self.height
        &&& self.width * self.height <= u32::MAX
        &&& 1 <= self.layers@.len()
        &&& self.active_layer < self.layers@.len()
        &&& forall|i: int|
            0 <= i < self.layers@.len() ==> (#[trigger] self.layers@[i]).fits(
                self.width as int,
                self.height as int,
            )
        &&& 1 <= self.glyph_palettes@.len()
        &&& self.active_glyph_palette < self.glyph_palettes@.len()
        &&& forall|i: int|
            0 <= i < self.glyph_palettes@.len() ==> (#[trigger] self.glyph_palettes@[i]).wf()
        &&& match self.selection {
            Some(m) => m.wf() && m.w == self.width && m.h == self.height,
            None => true,
        }
    }

    /// Everything but the canvas and its layers is as a new document has it:
    /// the DOS palette ("DOS 16"), white on black, glyph `A`, the default
    /// empty 8 x 4 glyph palette ("Palette 1"), `font` as bundled font 1, the pencil, and no selection.
    pub open spec fn has_default_settings(&self, font: FontAtlas) -> bool {
        &&& self.palettes@.len() == 1
        &&& self.palettes@[0].name@ == "DOS 16"@
        &&& self.palettes@[0].colors@ == dos_colors()
        &&& self.active_palette == 0
        &&& self.fg == rgba(255, 255, 255, 255)
        &&& self.bg == rgba(0, 0, 0, 255)
        &&& self.selected_glyph == 65
        &&& self.glyph_palettes@.len() == 1
        &&& self.glyph_palettes@[0].w == 8
        &&& self.glyph_palettes@[0].h == 4
        &&& self.glyph_palettes@[0].wf()
        &&& self.glyph_palettes@[0].name@ == "Palette 1"@
        &&& forall|x: int, y: int| #[trigger] self.glyph_palettes@[0].slot(x, y) == None::<u8>
        &&& self.active_glyph_palette == 0
        &&& self.font == font
        &&& self.bundled_font_index == 1
        &&& self.active_tool == ToolKind::Pencil
        &&& self.pencil_mode == PencilMode::Simple
        &&& self.select_mode == SelectMode::Rect
        &&& self.rect_mode == RectMode::Outline
        &&& self.selection.is_none()
    }

    /// An 80 x 25 document; see [`Document::new_with_size`].
    pub fn new_default(font: FontAtlas) -> (d: Document)
        ensures
            d.wf(),
            d.width == 80,
            d.height == 25,
            d.layers@.len() == 1,
            d.layers@[0].name@ == "Background"@,
            d.layers@[0].tiles@ == Seq::new(80 * 25, |i: int| blank_tile()),
            d.layers@[0].visible,
            d.layers@[0].offset == (0i32, 0i32),
            d.layers@[0].full_upload,
            d.layers@[0].dirty_cells@.len() == 0,
            d.active_layer == 0,
            d.has_default_settings(font),
            d.resources_generation == 1,
    {
        Self::new_with_size(80, 25, font)
    }

    /// A fresh `max(width, 1)` x `max(height, 1)` document: one blank layer
    /// named "Background", the DOS palette, white on black, glyph `A`, the
    /// default glyph palette, the pencil, and no selection.
    pub fn new_with_size(width: u32, height: u32, font: FontAtlas) -> (d: Document)
        requires
            max_int(width as int, 1) * max_int(height as int, 1) <= u32::MAX,
        ensures
            d.wf(),
            d.width == max_int(width as int, 1),
            d.height == max_int(height as int, 1),
            d.layers@.len() == 1,
            d.layers@[0].name@ == "Background"@,
            d.layers@[0].visible,
            d.layers@[0].offset == (0i32, 0i32),
            d.layers@[0].tiles@ == Seq::new((d.width * d.height) as nat, |i: int| blank_tile()),
            d.layers@[0].full_upload,
            d.layers@[0].dirty_cells@.len() == 0,
            d.active_layer == 0,
            d.has_default_settings(font),
            d.resources_generation == 1,
    {
        let width = if width >= 1 { width } else { 1 };
        let height = if height >= 1 { height } else { 1 };
        let mut layers: Vec<Layer> = Vec::new();
        layers.push(Layer::new(String::from_str("Background"), width, height));
        let mut palettes: Vec<Palette> = Vec::new();
        palettes.push(Palette::default_dos());
        let mut glyph_palettes: Vec<GlyphPalette> = Vec::new();
        glyph_palettes.push(GlyphPalette::default());
        Document {
            width,
            height,
            layers,
            active_layer: 0,
            palettes,
            active_palette: 0,
            fg: Color::rgb(255, 255, 255),
            bg: Color::rgb(0, 0, 0),
            selected_glyph: 65,
            glyph_palettes,
            active_glyph_palette: 0,
            font,
            bundled_font_index: 1,
            active_tool: ToolKind::Pencil,
            pencil_mode: PencilMode::Simple,
            select_mode: SelectMode::Rect,
            rect_mode: RectMode::Outline,
            selection: None,
            resources_generation: 1,
        }
    }

    /// The active layer, for editing.
    pub fn active_layer_mut(&mut self) -> (l: &mut Layer)
        requires
            old(self).active_layer < old(self).layers@.len(),
        ensures
            *l == old(self).layers@[old(self).active_layer as int],
            final(self).layers@ == old(self).layers@.update(old(self).active_layer as int, *final(l)),
            final(self).width == old(self).width,
            final(self).height == old(self).height,
            final(self).active_layer == old(self).active_layer,
    {
        &mut self.layers[self.active_layer]
    }

    /// The active glyph palette.
    pub fn active_glyph_palette(&self) -> (p: &GlyphPalette)
        requires
            self.active_glyph_palette < self.glyph_palettes@.len(),
        ensures
            *p == self.glyph_palettes@[self.active_glyph_palette as int],
    {
        &self.glyph_palettes[self.active_glyph_palette]
    }

    /// The active glyph palette, for editing.
    pub fn active_glyph_palette_mut(&mut self) -> (p: &mut GlyphPalette)
        requires
            old(self).active_glyph_palette < old(self).glyph_palettes@.len(),
        ensures
            *p == old(self).glyph_palettes@[old(self).active_glyph_palette as int],
            final(self).glyph_palettes@ == old(self).glyph_palettes@.update(
                old(self).active_glyph_palette as int,
                *final(p),
            ),
            final(self).active_glyph_palette == old(self).active_glyph_palette,
            final(self).layers == old(self).layers,
            final(self).width == old(self).width,
            final(self).height == old(self).height,
    {
        &mut self.glyph_palettes[self.active_glyph_palette]
    }

    /// Asks the renderer to rebuild everything: bumps the generation counter
    /// and flags every layer for a full upload.
    pub fn bump_resources(&mut self)
        requires
            old(self).resources_generation < u64::MAX,
        ensures
            final(self).resources_generation == old(self).resources_generation + 1,
            final(self).layers@.len() == old(self).layers@.len(),
            forall|i: int|
                0 <= i < old(self).layers@.len() ==> {
                    let a = #[trigger] final(self).layers@[i];
                    let b = old(self).layers@[i];
                    &&& a.same_content(&b)
                    &&& a.dirty_cells == b.dirty_cells
                    &&& a.full_upload
                },
            final(self).width == old(self).width,
            final(self).height == old(self).height,
            final(self).active_layer == old(self).active_layer,
            final(self).glyph_palettes == old(self).glyph_palettes,
            final(self).active_glyph_palette == old(self).active_glyph_palette,
            final(self).selection == old(self).selection,
            final(self).fg == old(self).fg,
            final(self).bg == old(self).bg,
            final(self).selected_glyph == old(self).selected_glyph,
            final(self).palettes == old(self).palettes,
            final(self).active_palette == old(self).active_palette,
            final(self).font == old(self).font,
            final(self).bundled_font_index == old(self).bundled_font_index,
            final(self).active_tool == old(self).active_tool,
            final(self).pencil_mode == old(self).pencil_mode,
            final(self).select_mode == old(self).select_mode,
            final(self).rect_mode == old(self).rect_mode,
    {
        self.resources_generation = self.resources_generation + 1;
        let mut i: usize = 0;
        while i < self.layers.len()
            invariant
                i <= self.layers@.len(),
                self.layers@.len() == old(self).layers@.len(),
                self.resources_generation == old(self).resources_generation + 1,
                forall|j: int|
                    0 <= j < old(self).layers@.len() ==> {
                        let a = #[trigger] self.layers@[j];
                        let b = old(self).layers@[j];
                        &&& a.same_content(&b)
                        &&& a.dirty_cells == b.dirty_cells
                        &&& (j < i ==> a.full_upload)
                        &&& (j >= i ==> a == b)
                    },
                self.width == old(self).width,
                self.height == old(self).height,
                self.active_layer == old(self).active_layer,
                self.glyph_palettes == old(self).glyph_palettes,
                self.active_glyph_palette == old(self).active_glyph_palette,
                self.selection == old(self).selection,
                self.fg == old(self).fg,
                self.bg == old(self).bg,
                self.selected_glyph == old(self).selected_glyph,
                self.palettes == old(self).palettes,
                self.active_palette == old(self).active_palette,
                self.font == old(self).font,
                self.bundled_font_index == old(self).bundled_font_index,
                self.active_tool == old(self).active_tool,
                self.pencil_mode == old(self).pencil_mode,
                self.select_mode == old(self).select_mode,
                self.rect_mode == old(self).rect_mode,
            decreases self.layers@.len() - i,
        {
            self.layers[i].full_upload = true;
            i = i + 1;
        }
    }
}

} // verus!
