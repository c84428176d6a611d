//! Minesweeper boards: reading a board of mines (`*`) and blanks (`.`) from text,
//! writing into every blank cell the number of mines around it, and writing the
//! board back as text.
//!
//! `grid` holds the model that the contracts speak of, `laws` the properties
//! proved of it.

pub mod board;
pub mod grid;
pub mod input_error;
pub mod laws;
pub mod mine_counter;
pub mod text;
