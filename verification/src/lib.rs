//! A falling-block puzzle engine.
//!
//! - [`tetromino`]: the catalog of the seven pieces, each a cycle of
//!   rotation states, and the live piece that walks its cycle.
//! - [`grid`]: the playfield as rows of cells, and what clearing full rows
//!   and compacting make of it.
//! - [`board`]: the playfield with the piece in play: collision, movement,
//!   descent, locking and drawing.
//! - [`game`]: the phase of the game, one tick of it, the score, and the
//!   frame drawn for each tick.
//! - [`display`]: the frame buffer, with blocks tinted from a template and
//!   glyphs cut from a sheet.
//! - [`bitmap`]: the decoder of the bitmap files that hold the template and
//!   the sheet.

pub mod bitmap;
pub mod board;
pub mod display;
pub mod game;
pub mod grid;
pub mod tetromino;
