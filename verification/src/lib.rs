//! Decoding of Red Alert 2 palette (PAL) and shape (SHP) files.
pub mod errors;
pub mod pal;
pub mod pixels;
pub mod shp;
