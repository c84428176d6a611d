//! Reads a board and counts, for every blank cell, the mines around it.
use vstd::prelude::*;
use crate::board::Board;
use crate::grid::{
    annotated, counted, in_rows, lines_of, mine_count, parsed, rectangular, rows_view, serialized,
    validation,
};
use crate::input_error::InputError;

verus! {

/// Counts the mines next to each blank cell of a board read from a file.
pub struct MineCounter {
    board: Board,
}

impl View for MineCounter {
    type V = Seq<Seq<char>>;

    closed spec fn view(&self) -> Seq<Seq<char>> {
        self.board@
    }
}

impl MineCounter {
    /// The board inside is well formed.
    pub closed spec fn wf(&self) -> bool {
        self.board.wf()
    }

    /// Reads a board from the text of a board file and annotates every blank cell.
    ///
    /// The text must hold at least one line, only the characters `*` and `.`, and
    /// lines of equal length.
    pub fn from_file(file_content: &str) -> (r: Result<MineCounter, InputError>)
        ensures
            match r {
                Ok(m) => m.wf() && rectangular(m@) && counted(file_content@) == Ok::<_, InputError>(m@),
                Err(e) => counted(file_content@) == Err::<Seq<Seq<char>>, _>(e),
            },
    {
        let mut mine_counter = match Self::new_from_file(file_content) {
            Ok(m) => m,
            Err(e) => return Err(e),
        };
        mine_counter.count();
        Ok(mine_counter)
    }

    /// Reads a board from the text of a board file, without annotating it.
    pub fn new_from_file(file_content: &str) -> (r: Result<MineCounter, InputError>)
        ensures
            match r {
                Ok(m) => m.wf() && rectangular(m@) && parsed(file_content@) == Ok::<_, InputError>(m@),
                Err(e) => parsed(file_content@) == Err::<Seq<Seq<char>>, _>(e),
            },
    {
        match Board::from_file(file_content) {
            Ok(board) => Ok(MineCounter { board }),
            Err(e) => Err(e),
        }
    }

    /// The text to store in a file: the board's rows, each followed by a newline.
    pub fn to_file(&self) -> (r: String)
        ensures
            r@ == serialized(self@),
    {
        self.board.to_string()
    }

    /// Writes in every blank cell the number of mines around it, where there are any.
    pub fn count(&mut self)
        requires
            old(self).wf(),
        ensures
            final(self).wf(),
            rectangular(final(self)@),
            final(self)@ == annotated(old(self)@),
    {
        self.board.count_mines();
    }

    /// Returns how many of the cells around `(y, x)` hold a mine.
    pub fn adyacents_mines_to(&self, y: usize, x: usize) -> (r: u8)
        requires
            self.wf(),
            in_rows(self@, y as int, x as int),
        ensures
            r as nat == mine_count(self@, y as int, x as int),
    {
        self.board.adyacents_mines_to(y, x)
    }

    /// Checks that a matrix is a board: not empty, only `*` and `.`, rows of equal length.
    pub fn assert_is_valid_board(board: &[Vec<char>]) -> (r: Result<(), InputError>)
        ensures
            r == validation(rows_view(board@)),
    {
        Board::assert_is_valid_board(board)
    }

    /// Splits text into rows of characters, one row per line.
    pub fn to_matrix(board: &str) -> (matrix: Vec<Vec<char>>)
        ensures
            rows_view(matrix@) == lines_of(board@),
    {
        Board::to_matrix(board)
    }

    /// The cell at row `y`, column `x`.
    pub fn cell(&self, y: usize, x: usize) -> (r: char)
        requires
            in_rows(self@, y as int, x as int),
        ensures
            r == self@[y as int][x as int],
    {
        self.board.cell(y, x)
    }

    /// The number of columns.
    pub fn width(&self) -> (r: usize)
        requires
            self.wf(),
        ensures
            r == self@[0].len(),
    {
        self.board.width()
    }

    /// The number of rows.
    pub fn height(&self) -> (r: usize)
        requires
            self.wf(),
        ensures
            r == self@.len(),
    {
        self.board.height()
    }
}

} // verus!
