//! A minesweeper board: reading it from text, annotating it, writing it back.
use vstd::prelude::*;
use crate::grid::{
    annotated, annotated_cell, before, first_invalid_at, has_invalid, in_rows, is_symbol,
    lemma_annotated_cell_mine, lemma_same_mines_count, lines_of, mine_at, mine_count, parsed,
    pieces, rectangular, rows_view, same_mines, serialized, strip_cr, uneven, validation, BLANK,
    MINE,
};
use crate::input_error::InputError;
use crate::text::{chars_of, digit_to_char, push_char};

verus! {

/// Holds a rectangular board of cells, one character each.
pub struct Board {
    board: Vec<Vec<char>>,
    width: usize,
    height: usize,
}

impl View for Board {
    type V = Seq<Seq<char>>;

    closed spec fn view(&self) -> Seq<Seq<char>> {
        rows_view(self.board@)
    }
}

impl Board {
    /// The board is rectangular, with at least one row, and its sizes are recorded.
    pub closed spec fn wf(&self) -> bool {
        &&& rectangular(self@)
        &&& self.height == self@.len()
        &&& self.width == self@[0].len()
    }

    /// Splits text into rows of characters, one row per line.
    pub fn to_matrix(board: &str) -> (matrix: Vec<Vec<char>>)
        ensures
            rows_view(matrix@) == lines_of(board@),
    {
        let chars = chars_of(board);
        let mut matrix: Vec<Vec<char>> = Vec::new();
        let mut line: Vec<char> = Vec::new();
        let mut i: usize = 0;
        proof {
            assert(chars@.take(0) == Seq::<char>::empty());
            assert(rows_view(matrix@) =~= pieces(chars@.take(0)).drop_last().map_values(
                |l: Seq<char>| strip_cr(l),
            ));
        }
        while i < chars.len()
            invariant
                0 <= i <= chars.len(),
                chars@ == board@,
                pieces(chars@.take(i as int)).len() >= 1,
                rows_view(matrix@) == pieces(chars@.take(i as int)).drop_last().map_values(
                    |l: Seq<char>| strip_cr(l),
                ),
                line@ == pieces(chars@.take(i as int)).last(),
            decreases chars.len() - i,
        {
            let ghost pre = chars@.take(i as int);
            let ghost old_matrix = matrix@;
            let c = chars[i];
            proof {
                assert(chars@.take(i + 1).drop_last() == pre);
                assert(chars@.take(i + 1).last() == c);
            }
            if c == '\n' {
                let n = line.len();
                if n > 0 && line[n - 1] == '\r' {
                    line.pop();
                }
                assert(line@ == strip_cr(pieces(pre).last()));
                matrix.push(line);
                line = Vec::new();
                proof {
                    let p = pieces(chars@.take(i + 1));
                    assert(p == pieces(pre).push(Seq::<char>::empty()));
                    assert(p.drop_last() == pieces(pre));
                    assert(pieces(pre) == pieces(pre).drop_last().push(pieces(pre).last()));
                    assert(rows_view(matrix@) =~= rows_view(old_matrix).push(
                        strip_cr(pieces(pre).last()),
                    ));
                    assert(rows_view(matrix@) =~= p.drop_last().map_values(
                        |l: Seq<char>| strip_cr(l),
                    ));
                    assert(line@ =~= p.last());
                }
            } else {
                line.push(c);
                proof {
                    let p = pieces(chars@.take(i + 1));
                    let q = pieces(pre);
                    assert(p == q.update(q.len() - 1, q.last().push(c)));
                    assert(p.drop_last() =~= q.drop_last());
                }
            }
            i += 1;
        }
        proof {
            assert(chars@.take(chars.len() as int) == chars@);
        }
        if line.len() > 0 {
            matrix.push(line);
            proof {
                let p = pieces(chars@);
                assert(rows_view(matrix@) =~= lines_of(board@));
            }
        }
        matrix
    }

    /// Checks that a matrix is a board: not empty, only `*` and `.`, rows of equal length.
    pub fn assert_is_valid_board(board: &[Vec<char>]) -> (r: Result<(), InputError>)
        ensures
            r == validation(rows_view(board@)),
    {
        let ghost rows = rows_view(board@);
        if board.len() == 0 {
            return Err(InputError::EmptyBoard);
        }
        let mut y: usize = 0;
        while y < board.len()
            invariant
                0 <= y <= board.len(),
                rows == rows_view(board@),
                forall|y2: int, x2: int|
                    0 <= y2 < y && in_rows(rows, y2, x2) ==> is_symbol(#[trigger] rows[y2][x2]),
            decreases board.len() - y,
        {
            let row = &board[y];
            let mut x: usize = 0;
            while x < row.len()
                invariant
                    0 <= y < board.len(),
                    0 <= x <= row.len(),
                    rows == rows_view(board@),
                    row@ == rows[y as int],
                    forall|y2: int, x2: int|
                        0 <= y2 < y && in_rows(rows, y2, x2) ==> is_symbol(
                            #[trigger] rows[y2][x2],
                        ),
                    forall|x2: int| 0 <= x2 < x ==> is_symbol(#[trigger] rows[y as int][x2]),
                decreases row.len() - x,
            {
                let c = row[x];
                if c != MINE && c != BLANK {
                    proof {
                        assert(first_invalid_at(rows, y as int, x as int));
                        lemma_first_invalid_unique(rows, y as int, x as int);
                    }
                    return Err(InputError::InvalidCharacter(c));
                }
                x += 1;
            }
            y += 1;
        }
        assert(!has_invalid(rows));
        let first = board[0].len();
        let mut y: usize = 1;
        while y < board.len()
            invariant
                1 <= y <= board.len(),
                rows == rows_view(board@),
                !has_invalid(rows),
                first == rows[0].len(),
                forall|y2: int| 0 <= y2 < y ==> #[trigger] rows[y2].len() == first,
            decreases board.len() - y,
        {
            if board[y].len() != first {
                assert(rows[y as int].len() != rows[0].len());
                return Err(InputError::InvalidBoard);
            }
            y += 1;
        }
        assert(!uneven(rows));
        Ok(())
    }
}

impl Board {
    /// Reads a board from the text of a board file.
    ///
    /// The text must hold at least one line, only the characters `*` and `.`, and
    /// lines of equal length.
    pub fn from_file(file_content: &str) -> (r: Result<Board, InputError>)
        ensures
            match r {
                Ok(b) => b.wf() && rectangular(b@) && parsed(file_content@) == Ok::<_, InputError>(b@),
                Err(e) => parsed(file_content@) == Err::<Seq<Seq<char>>, _>(e),
            },
    {
        let board = Self::to_matrix(file_content);
        match Self::assert_is_valid_board(board.as_slice()) {
            Err(e) => Err(e),
            Ok(()) => {
                let width = board[0].len();
                let height = board.len();
                proof {
                    let rows = rows_view(board@);
                    assert forall|y: int| 0 <= y < rows.len() implies #[trigger] rows[y].len()
                        == rows[0].len() by {
                        if rows[y].len() != rows[0].len() {
                            assert(uneven(rows));
                        }
                    }
                }
                Ok(Board { board, width, height })
            },
        }
    }

    /// 1 if the cell at `(y, x)` holds a mine, else 0.
    fn mine_here(&self, y: usize, x: usize) -> (r: u8)
        requires
            self.wf(),
            y < self.height,
            x < self.width,
        ensures
            r as nat == mine_at(self@, y as int, x as int),
    {
        assert(self@[y as int] == self.board@[y as int]@);
        assert(self@[y as int].len() == self.width);
        if self.board[y][x] == MINE {
            1
        } else {
            0
        }
    }

    /// Returns how many of the cells around `(y, x)` hold a mine.
    pub fn adyacents_mines_to(&self, y: usize, x: usize) -> (r: u8)
        requires
            self.wf(),
            in_rows(self@, y as int, x as int),
        ensures
            r as nat == mine_count(self@, y as int, x as int),
    {
        let ghost g = self@;
        let ghost yi = y as int;
        let ghost xi = x as int;
        let up = y > 0;
        let down = y + 1 < self.height;
        let left = x > 0;
        let right = x + 1 < self.width;
        assert(g[yi].len() == self.width);
        assert(!up ==> mine_at(g, yi - 1, xi - 1) + mine_at(g, yi - 1, xi) + mine_at(g, yi - 1, xi + 1) == 0);
        assert(!down ==> mine_at(g, yi + 1, xi - 1) + mine_at(g, yi + 1, xi) + mine_at(g, yi + 1, xi + 1) == 0);
        assert(!left ==> mine_at(g, yi - 1, xi - 1) + mine_at(g, yi, xi - 1) + mine_at(g, yi + 1, xi - 1) == 0);
        assert(!right ==> mine_at(g, yi - 1, xi + 1) + mine_at(g, yi, xi + 1) + mine_at(g, yi + 1, xi + 1) == 0);
        let mut counter: u8 = 0;
        if up {
            if left {
                counter = counter + self.mine_here(y - 1, x - 1);
            }
            counter = counter + self.mine_here(y - 1, x);
            if right {
                counter = counter + self.mine_here(y - 1, x + 1);
            }
        }
        if left {
            counter = counter + self.mine_here(y, x - 1);
        }
        if right {
            counter = counter + self.mine_here(y, x + 1);
        }
        if down {
            if left {
                counter = counter + self.mine_here(y + 1, x - 1);
            }
            counter = counter + self.mine_here(y + 1, x);
            if right {
                counter = counter + self.mine_here(y + 1, x + 1);
            }
        }
        counter
    }
}

impl Board {
    /// Writes in every blank cell the number of mines around it, where there are any.
    pub fn count_mines(&mut self)
        requires
            old(self).wf(),
        ensures
            final(self).wf(),
            rectangular(final(self)@),
            final(self)@ == annotated(old(self)@),
    {
        let ghost g = self@;
        let mut y: usize = 0;
        while y < self.height
            invariant
                self.wf(),
                rectangular(g),
                self.height == g.len(),
                self.width == g[0].len(),
                self@.len() == g.len(),
                y <= self.height,
                forall|i: int, j: int|
                    in_rows(g, i, j) ==> #[trigger] self@[i][j] == if i < y {
                        annotated_cell(g, i, j)
                    } else {
                        g[i][j]
                    },
            decreases self.height - y,
        {
            let mut x: usize = 0;
            while x < self.width
                invariant
                    self.wf(),
                    rectangular(g),
                    self.height == g.len(),
                    self.width == g[0].len(),
                    self@.len() == g.len(),
                    y < self.height,
                    x <= self.width,
                    forall|i: int, j: int|
                        in_rows(g, i, j) ==> #[trigger] self@[i][j] == if before(i, j, y as int, x as int) {
                            annotated_cell(g, i, j)
                        } else {
                            g[i][j]
                        },
                decreases self.width - x,
            {
                proof {
                    assert forall|i: int, j: int| in_rows(self@, i, j) implies (#[trigger] self@[i][j]
                        == MINE) == (g[i][j] == MINE) by {
                        lemma_annotated_cell_mine(g, i, j);
                    }
                    assert(same_mines(self@, g));
                    lemma_same_mines_count(self@, g, y as int, x as int);
                    lemma_annotated_cell_mine(g, y as int, x as int);
                    assert(self@[y as int] == self.board@[y as int]@);
                }
                if self.board[y][x] == BLANK {
                    let n = self.adyacents_mines_to(y, x);
                    if n > 0 {
                        let d = digit_to_char(n);
                        let ghost pre = self@;
                        self.board[y][x] = d;
                        proof {
                            assert(self@ =~= pre.update(y as int, pre[y as int].update(x as int, d)));
                        }
                    }
                }
                x += 1;
            }
            y += 1;
        }
        proof {
            assert forall|i: int| 0 <= i < g.len() implies #[trigger] self@[i] =~= annotated(g)[i] by {
                assert(self@[i].len() == g[i].len());
            }
            assert(self@ =~= annotated(g));
        }
    }
}

impl Board {
    /// The text of the board: each row's cells followed by a newline.
    pub fn to_string(&self) -> (r: String)
        ensures
            r@ == serialized(self@),
    {
        let ghost g = self@;
        let mut r = String::new();
        let mut y: usize = 0;
        proof {
            assert(g.take(0) =~= Seq::<Seq<char>>::empty());
        }
        while y < self.board.len()
            invariant
                g == self@,
                y <= g.len(),
                g.len() == self.board.len(),
                r@ == serialized(g.take(y as int)),
            decreases self.board.len() - y,
        {
            let row = &self.board[y];
            assert(row@ == g[y as int]);
            let ghost start = r@;
            let mut x: usize = 0;
            while x < row.len()
                invariant
                    x <= row.len(),
                    r@ == start + row@.take(x as int),
                decreases row.len() - x,
            {
                push_char(&mut r, row[x]);
                proof {
                    assert(row@.take(x + 1) =~= row@.take(x as int).push(row@[x as int]));
                }
                x += 1;
            }
            push_char(&mut r, '\n');
            proof {
                let t = g.take(y + 1);
                assert(t.drop_last() =~= g.take(y as int));
                assert(row@.take(row.len() as int) =~= row@);
                assert(r@ =~= serialized(t));
            }
            y += 1;
        }
        proof {
            assert(g.take(g.len() as int) =~= g);
        }
        r
    }

    /// The number of columns.
    pub fn width(&self) -> (r: usize)
        requires
            self.wf(),
        ensures
            r == self@[0].len(),
    {
        self.width
    }

    /// The number of rows.
    pub fn height(&self) -> (r: usize)
        requires
            self.wf(),
        ensures
            r == self@.len(),
    {
        self.height
    }

    /// The cell at row `y`, column `x`.
    pub fn cell(&self, y: usize, x: usize) -> (r: char)
        requires
            in_rows(self@, y as int, x as int),
        ensures
            r == self@[y as int][x as int],
    {
        assert(self@[y as int] == self.board@[y as int]@);
        self.board[y][x]
    }
}

/// The first character that is not a symbol has one position only, and `validation`
/// reports the character found there.
proof fn lemma_first_invalid_unique(rows: Seq<Seq<char>>, y: int, x: int)
    requires
        rows.len() > 0,
        first_invalid_at(rows, y, x),
    ensures
        validation(rows) == Err::<(), InputError>(InputError::InvalidCharacter(rows[y][x])),
{
    assert(has_invalid(rows));
    let (y1, x1) = choose|y1: int, x1: int| first_invalid_at(rows, y1, x1);
    if before(y1, x1, y, x) {
        assert(is_symbol(rows[y1][x1]));
    } else if before(y, x, y1, x1) {
        assert(is_symbol(rows[y][x]));
    }
}

} // verus!
