//! A toroidal Game of Life board, a generation-step engine that fans its work
//! out over row-aligned chunks, and a glyph renderer that packs blocks of
//! cells into single terminal characters.

pub mod args;
pub mod bgrid;
pub mod engine;
pub mod gol;
pub mod pgm;
pub mod session;
pub mod text;
