//! Enumerations that the decoder consults.
pub mod scene_type;
