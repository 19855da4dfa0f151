//! The drawing tools: what they do to the document, their kinds, and the
//! box-drawing glyph families the dynamic pencil joins.
pub mod edit;
pub mod kinds;
pub mod shape_families;

pub use edit::{apply, erase_selection, fill_selection};
pub use kinds::{PencilMode, RectMode, SelectMode, ToolKind};
