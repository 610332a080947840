//! Text support that needs no font stack: atlas limits, glyph checks and
//! skyline packing.

pub mod atlas;
pub mod layout;
pub mod skyline;
