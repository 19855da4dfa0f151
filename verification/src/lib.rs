pub mod document;
pub mod font;
pub mod glyph_palette;
pub mod grid;
pub mod history;
pub mod io;
pub mod layer;
pub mod palette;
pub mod renderer;
pub mod selection;
pub mod tile;
pub mod tools;
pub mod trusted;
pub mod ui;
