//! The mathematical model of a board: text, rows of cells, validation and annotation.
use vstd::prelude::*;
use crate::input_error::InputError;

verus! {

pub const MINE: char = '*';
pub const BLANK: char = '.';

/// A cell symbol that may appear in a board read from text.
pub open spec fn is_symbol(c: char) -> bool {
    c == MINE || c == BLANK
}

/// The pieces of `s` between newline characters: one more piece than there are newlines.
pub open spec fn pieces(s: Seq<char>) -> Seq<Seq<char>>
    decreases s.len(),
{
    if s.len() == 0 {
        seq![Seq::<char>::empty()]
    } else {
        let p = pieces(s.drop_last());
        if s.last() == '\n' {
            p.push(Seq::<char>::empty())
        } else {
            p.update(p.len() - 1, p.last().push(s.last()))
        }
    }
}

/// Text always splits into at least one piece.
pub proof fn lemma_pieces_nonempty(s: Seq<char>)
    ensures
        pieces(s).len() >= 1,
    decreases s.len(),
{
    if s.len() > 0 {
        lemma_pieces_nonempty(s.drop_last());
    }
}

/// The rows of a matrix of characters, as sequences.
pub open spec fn rows_view(m: Seq<Vec<char>>) -> Seq<Seq<char>> {
    m.map_values(|r: Vec<char>| r@)
}

/// A line that ended in a newline loses a carriage return just before it.
pub open spec fn strip_cr(l: Seq<char>) -> Seq<char> {
    if l.len() > 0 && l.last() == '\r' {
        l.drop_last()
    } else {
        l
    }
}

/// The lines of `s`, as `str::lines` gives them: split at `\n` or `\r\n`; a final
/// line ending adds no empty line, and empty text has no line.
pub open spec fn lines_of(s: Seq<char>) -> Seq<Seq<char>> {
    let p = pieces(s);
    let ended = p.drop_last().map_values(|l: Seq<char>| strip_cr(l));
    if p.last().len() == 0 {
        ended
    } else {
        ended.push(p.last())
    }
}

/// `(y1, x1)` comes strictly before `(y2, x2)` in row-major order.
pub open spec fn before(y1: int, x1: int, y2: int, x2: int) -> bool {
    y1 < y2 || (y1 == y2 && x1 < x2)
}

pub open spec fn in_rows(rows: Seq<Seq<char>>, y: int, x: int) -> bool {
    0 <= y < rows.len() && 0 <= x < rows[y].len()
}

/// `(y, x)` holds the first character of `rows` in row-major order that is not a symbol.
pub open spec fn first_invalid_at(rows: Seq<Seq<char>>, y: int, x: int) -> bool {
    &&& in_rows(rows, y, x)
    &&& !is_symbol(rows[y][x])
    &&& forall|y2: int, x2: int|
        in_rows(rows, y2, x2) && before(y2, x2, y, x) ==> is_symbol(#[trigger] rows[y2][x2])
}

pub open spec fn has_invalid(rows: Seq<Seq<char>>) -> bool {
    exists|y: int, x: int| in_rows(rows, y, x) && !is_symbol(#[trigger] rows[y][x])
}

pub open spec fn uneven(rows: Seq<Seq<char>>) -> bool {
    exists|y: int| 0 <= y < rows.len() && #[trigger] rows[y].len() != rows[0].len()
}

/// The outcome of validating `rows`: no row, then a character that is not a symbol
/// (the first in row-major order), then rows of different lengths.
pub open spec fn validation(rows: Seq<Seq<char>>) -> Result<(), InputError> {
    if rows.len() == 0 {
        Err(InputError::EmptyBoard)
    } else if has_invalid(rows) {
        let (y, x) = choose|y: int, x: int| first_invalid_at(rows, y, x);
        Err(InputError::InvalidCharacter(rows[y][x]))
    } else if uneven(rows) {
        Err(InputError::InvalidBoard)
    } else {
        Ok(())
    }
}

/// Every row has the length of the first, and there is at least one row.
pub open spec fn rectangular(rows: Seq<Seq<char>>) -> bool {
    &&& rows.len() >= 1
    &&& forall|y: int| 0 <= y < rows.len() ==> #[trigger] rows[y].len() == rows[0].len()
}

/// A rectangular board of mines and blanks only.
pub open spec fn symbol_grid(g: Seq<Seq<char>>) -> bool {
    &&& rectangular(g)
    &&& forall|y: int, x: int| in_rows(g, y, x) ==> is_symbol(#[trigger] g[y][x])
}

/// The result of reading a board from text.
pub open spec fn parsed(text: Seq<char>) -> Result<Seq<Seq<char>>, InputError> {
    let rows = lines_of(text);
    match validation(rows) {
        Ok(()) => Ok(rows),
        Err(e) => Err(e),
    }
}

/// The result of reading a board from text and annotating it.
pub open spec fn counted(text: Seq<char>) -> Result<Seq<Seq<char>>, InputError> {
    match parsed(text) {
        Ok(g) => Ok(annotated(g)),
        Err(e) => Err(e),
    }
}

/// 1 where `(y, x)` is inside the board and holds a mine, else 0.
pub open spec fn mine_at(g: Seq<Seq<char>>, y: int, x: int) -> nat {
    if in_rows(g, y, x) && g[y][x] == MINE {
        1
    } else {
        0
    }
}

/// The number of mines among the up to eight cells around `(y, x)`.
pub open spec fn mine_count(g: Seq<Seq<char>>, y: int, x: int) -> nat {
    mine_at(g, y - 1, x - 1) + mine_at(g, y - 1, x) + mine_at(g, y - 1, x + 1)
        + mine_at(g, y, x - 1) + mine_at(g, y, x + 1)
        + mine_at(g, y + 1, x - 1) + mine_at(g, y + 1, x) + mine_at(g, y + 1, x + 1)
}

/// The decimal digit of `d`: the character `'0'` (code 48) moved up by `d`.
pub open spec fn digit_char(d: nat) -> char
    recommends
        d < 10,
{
    ((d + 48) as u8) as char
}

/// What the cell at `(y, x)` becomes: a blank with mines around it shows their number.
pub open spec fn annotated_cell(g: Seq<Seq<char>>, y: int, x: int) -> char {
    if g[y][x] == BLANK && mine_count(g, y, x) > 0 {
        digit_char(mine_count(g, y, x))
    } else {
        g[y][x]
    }
}

/// The board with every blank cell annotated.
pub open spec fn annotated(g: Seq<Seq<char>>) -> Seq<Seq<char>> {
    Seq::new(g.len(), |y: int| Seq::new(g[y].len(), |x: int| annotated_cell(g, y, x)))
}

/// The text of a board: each row's cells followed by a newline.
pub open spec fn serialized(g: Seq<Seq<char>>) -> Seq<char>
    decreases g.len(),
{
    if g.len() == 0 {
        Seq::<char>::empty()
    } else {
        serialized(g.drop_last()) + g.last().push('\n')
    }
}

/// `a` and `b` have the same shape and hold mines at the same positions.
pub open spec fn same_mines(a: Seq<Seq<char>>, b: Seq<Seq<char>>) -> bool {
    &&& a.len() == b.len()
    &&& forall|y: int| 0 <= y < a.len() ==> #[trigger] a[y].len() == b[y].len()
    &&& forall|y: int, x: int| in_rows(a, y, x) ==> (#[trigger] a[y][x] == MINE) == (b[y][x] == MINE)
}

/// Neighbour counts depend on the positions of the mines alone.
pub proof fn lemma_same_mines_count(a: Seq<Seq<char>>, b: Seq<Seq<char>>, y: int, x: int)
    requires
        same_mines(a, b),
    ensures
        mine_count(a, y, x) == mine_count(b, y, x),
{
    assert forall|p: int, q: int| mine_at(a, p, q) == mine_at(b, p, q) by {
        if in_rows(a, p, q) {
            assert(a[p][q] == MINE <==> b[p][q] == MINE);
        }
    }
}

/// A cell holds a mine after annotation exactly when it held one before.
pub proof fn lemma_annotated_cell_mine(g: Seq<Seq<char>>, y: int, x: int)
    ensures
        (annotated_cell(g, y, x) == MINE) == (g[y][x] == MINE),
        mine_count(g, y, x) <= 8,
{
    let n = mine_count(g, y, x);
    if g[y][x] == BLANK && n > 0 {
        assert(((n + 48) as u8) as char != MINE);
    }
}

} // verus!
