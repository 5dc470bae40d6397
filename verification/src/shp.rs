//! Shapes: the SHP file format, its headers and the frames decoded from it.
pub mod enums;
pub mod loader;
pub mod paint;
pub mod reader;
pub mod rows;
pub mod shp_header;
pub mod types;
