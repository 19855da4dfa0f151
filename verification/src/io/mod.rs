//! File formats: the `.xp` drawing format and PNG import.
pub mod png_import;
pub mod xp;
