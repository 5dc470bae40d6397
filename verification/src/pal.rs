//! Palettes: the PAL file format and the colour tables built from it.
pub mod pal_color;
pub mod palette;
pub mod reader;
