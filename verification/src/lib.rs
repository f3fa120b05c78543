//! Glyph atlas cache and incremental text-render engine.
//!
//! The crate turns a frequently edited string into a packed signed-distance-field
//! atlas that covers the characters in use, and into one textured quad per
//! visible glyph. Every function is verified; calls into the font rasterizer and
//! the distance-field renderer stand behind small trusted wrappers whose
//! contracts are stated in their doc comments.
//!
//! * `text_buffer`, `input`: the edited text, its cursor, and the edits.
//! * `dirty`: which character ranges an edit has changed.
//! * `font`, `sdf`, `quantize`: from a character to its bitmap, to its distance
//!   field, to bytes.
//! * `atlas`, `coverage`: the packed texture and what covering a text does to it.
//! * `vertices`: the quads that draw a laid-out text.
//! * `renderer`: the engine that ties these together.
//! * `cache`, `serve`: keeping finished atlases, and serving the assets.

pub mod atlas;
pub mod cache;
pub mod chars;
pub mod coverage;
pub mod dirty;
pub mod font;
pub mod input;
pub mod quantize;
pub mod renderer;
pub mod sdf;
pub mod serve;
pub mod text_buffer;
pub mod vertices;
