use vstd::prelude::*;

verus! {

/// The drawing tools.
#[derive(Copy, Clone, Debug, PartialEq, Eq, Structural)]
pub enum ToolKind {
    Pencil,
    Eraser,
    Eyedropper,
    RectSelect,
}

impl ToolKind {
    /// Every tool, in toolbar order.
    pub fn all() -> (a: [ToolKind; 4])
        ensures
            a@ == seq![ToolKind::Pencil, ToolKind::Eraser, ToolKind::Eyedropper, ToolKind::RectSelect],
    {
        [ToolKind::Pencil, ToolKind::Eraser, ToolKind::Eyedropper, ToolKind::RectSelect]
    }

    /// The tool's name as shown to the user.
    pub fn label(self) -> (s: &'static str)
        ensures
            s@ == match self {
                ToolKind::Pencil => "Pencil"@,
                ToolKind::Eraser => "Eraser"@,
                ToolKind::Eyedropper => "Eyedropper"@,
                ToolKind::RectSelect => "Rect Select"@,
            },
    {
        match self {
            ToolKind::Pencil => "Pencil",
            ToolKind::Eraser => "Eraser",
            ToolKind::Eyedropper => "Eyedropper",
            ToolKind::RectSelect => "Rect Select",
        }
    }

    /// The key that selects the tool.
    pub fn hotkey(self) -> (s: &'static str)
        ensures
            s@ == match self {
                ToolKind::Pencil => "B"@,
                ToolKind::Eraser => "E"@,
                ToolKind::Eyedropper => "I"@,
                ToolKind::RectSelect => "M"@,
            },
    {
        match self {
            ToolKind::Pencil => "B",
            ToolKind::Eraser => "E",
            ToolKind::Eyedropper => "I",
            ToolKind::RectSelect => "M",
        }
    }
}

/// How the pencil lays down glyphs.
#[derive(Copy, Clone, Debug, PartialEq, Eq, Structural)]
pub enum PencilMode {
    /// Writes the selected glyph as is.
    Simple,
    /// Joins box-drawing glyphs with their neighbours.
    Dynamic,
}

/// The shape a selection drag selects.
#[derive(Copy, Clone, Debug, PartialEq, Eq, Structural)]
pub enum SelectMode {
    /// Cells painted one by one.
    Cell,
    /// The rectangle spanned by the drag.
    Rect,
    /// The ellipse inscribed in that rectangle.
    Oval,
}

/// How the rectangle tool draws.
#[derive(Copy, Clone, Debug, PartialEq, Eq, Structural)]
pub enum RectMode {
    Outline,
    Fill,
}

} // verus!
