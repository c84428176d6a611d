//! Errors raised while loading a board.
use vstd::prelude::*;

verus! {

/// Declares `std::io::Error` so that a read failure can travel inside [`InputError`].
#[verifier::external_type_specification]
#[verifier::external_body]
pub struct ExIoError(std::io::Error);

/// What can go wrong while loading a board.
#[derive(Debug)]
pub enum InputError {
    /// The board holds a character other than `*` or `.`; carries the first one in row-major order.
    InvalidCharacter(char),
    /// The rows of the board do not all have the same length.
    InvalidBoard,
    /// The source could not be read; carries the failure that the read reported.
    InvalidFile(std::io::Error),
    /// The source holds no row at all.
    EmptyBoard,
}

} // verus!
