//! Unit-aware geometric value types.

pub mod border;
pub mod color;
pub mod exif;
pub mod format;
pub mod length;
pub mod scale;
pub mod size;
