//! Properties of reading, annotating and writing boards, proved over the model.
use vstd::prelude::*;
use crate::grid::{
    annotated, counted, digit_char, has_invalid, in_rows, lines_of, mine_count,
    parsed, pieces, rectangular, same_mines, serialized, strip_cr, symbol_grid, uneven,
    lemma_annotated_cell_mine, lemma_same_mines_count, BLANK, MINE,
};

verus! {

/// Annotation keeps the number of rows and the length of every row.
pub proof fn lemma_annotate_keeps_size(g: Seq<Seq<char>>)
    requires
        rectangular(g),
    ensures
        annotated(g).len() == g.len(),
        forall|y: int| 0 <= y < g.len() ==> #[trigger] annotated(g)[y].len() == g[y].len(),
        rectangular(annotated(g)),
{
}

/// A cell that holds a mine still holds it after annotation.
pub proof fn lemma_annotate_keeps_mines(g: Seq<Seq<char>>, y: int, x: int)
    requires
        in_rows(g, y, x),
        g[y][x] == MINE,
    ensures
        annotated(g)[y][x] == MINE,
{
}

/// A blank cell stays blank after annotation exactly when no mine is next to it;
/// otherwise it shows the decimal digit of the number of mines next to it.
pub proof fn lemma_annotate_blank(g: Seq<Seq<char>>, y: int, x: int)
    requires
        in_rows(g, y, x),
        g[y][x] == BLANK,
    ensures
        (annotated(g)[y][x] == BLANK) <==> mine_count(g, y, x) == 0,
        mine_count(g, y, x) > 0 ==> annotated(g)[y][x] == digit_char(mine_count(g, y, x)),
        mine_count(g, y, x) <= 8,
{
    lemma_annotated_cell_mine(g, y, x);
    let n = mine_count(g, y, x);
    if n > 0 {
        assert(((n + 48) as u8) as char != BLANK);
    }
}

/// Appending characters without a newline extends the last piece of the text.
proof fn lemma_pieces_append(s: Seq<char>, r: Seq<char>)
    requires
        !r.contains('\n'),
    ensures
        pieces(s + r) == pieces(s).update(pieces(s).len() - 1, pieces(s).last() + r),
    decreases r.len(),
{
    crate::grid::lemma_pieces_nonempty(s);
    if r.len() == 0 {
        assert(s + r =~= s);
        assert(pieces(s).last() + r =~= pieces(s).last());
        assert(pieces(s).update(pieces(s).len() - 1, pieces(s).last()) =~= pieces(s));
    } else {
        let r0 = r.drop_last();
        assert(!r0.contains('\n')) by {
            if r0.contains('\n') {
                let i = choose|i: int| 0 <= i < r0.len() && r0[i] == '\n';
                assert(r[i] == '\n');
            }
        }
        assert(r.last() != '\n') by {
            assert(r[r.len() - 1] == r.last());
        }
        lemma_pieces_append(s, r0);
        assert((s + r).drop_last() =~= s + r0);
        assert((s + r).last() == r.last());
        let q = pieces(s);
        let pp = pieces(s + r0);
        assert(pp == q.update(q.len() - 1, q.last() + r0));
        assert(pp.len() == q.len());
        assert(pp.last() == q.last() + r0);
        assert(pieces(s + r) == pp.update(pp.len() - 1, pp.last().push(r.last())));
        assert((q.last() + r0).push(r.last()) =~= q.last() + r);
        assert(pieces(s + r) =~= pieces(s).update(pieces(s).len() - 1, pieces(s).last() + r));
    }
}

/// The text of a board splits back into its rows, with one empty piece after the last newline.
proof fn lemma_pieces_serialized(g: Seq<Seq<char>>)
    requires
        forall|y: int| 0 <= y < g.len() ==> !(#[trigger] g[y]).contains('\n'),
    ensures
        pieces(serialized(g)) == g.push(Seq::<char>::empty()),
    decreases g.len(),
{
    if g.len() == 0 {
        assert(serialized(g) == Seq::<char>::empty());
        assert(pieces(Seq::<char>::empty()) =~= g.push(Seq::<char>::empty()));
    } else {
        let g0 = g.drop_last();
        let row = g.last();
        assert(!row.contains('\n')) by {
            assert(g[g.len() - 1] == row);
        }
        lemma_pieces_serialized(g0);
        let s = serialized(g0);
        lemma_pieces_append(s, row);
        let t = s + row;
        assert(serialized(g) =~= t.push('\n'));
        assert(t.push('\n').drop_last() =~= t);
        assert(pieces(t) =~= g0.push(row));
        assert(g0.push(row) =~= g);
        assert(pieces(serialized(g)) =~= g.push(Seq::<char>::empty()));
    }
}

/// Rows that hold no newline and do not end in a carriage return come back, as
/// lines, from the text of the board. This holds of annotated boards too.
pub proof fn lemma_lines_of_serialized(g: Seq<Seq<char>>)
    requires
        forall|y: int| 0 <= y < g.len() ==> !(#[trigger] g[y]).contains('\n'),
        forall|y: int| 0 <= y < g.len() ==> strip_cr(#[trigger] g[y]) == g[y],
    ensures
        lines_of(serialized(g)) == g,
{
    lemma_pieces_serialized(g);
    let p = pieces(serialized(g));
    assert(p.drop_last() =~= g);
    assert(p.last() == Seq::<char>::empty());
    assert(g.map_values(|l: Seq<char>| strip_cr(l)) =~= g);
}

/// Writing a board of mines and blanks to text and reading it back gives the same board.
pub proof fn lemma_round_trip(g: Seq<Seq<char>>)
    requires
        symbol_grid(g),
    ensures
        parsed(serialized(g)) == Ok::<_, crate::input_error::InputError>(g),
{
    assert forall|y: int| 0 <= y < g.len() implies !(#[trigger] g[y]).contains('\n') && strip_cr(
        g[y],
    ) == g[y] by {
        if g[y].contains('\n') {
            let x = choose|x: int| 0 <= x < g[y].len() && g[y][x] == '\n';
            assert(in_rows(g, y, x));
        }
        if g[y].len() > 0 {
            assert(in_rows(g, y, g[y].len() - 1));
            assert(g[y].last() == g[y][g[y].len() - 1]);
        }
    }
    lemma_lines_of_serialized(g);
    assert(!has_invalid(g));
    assert(!uneven(g));
}

/// The text of an annotated board with at least one number in it is not read back as
/// a board: the first number met is reported as an invalid character.
pub proof fn lemma_annotated_text_rejected(g: Seq<Seq<char>>, y: int, x: int)
    requires
        symbol_grid(g),
        in_rows(g, y, x),
        g[y][x] == BLANK,
        mine_count(g, y, x) > 0,
    ensures
        parsed(serialized(annotated(g))) is Err,
        parsed(serialized(annotated(g)))->Err_0 is InvalidCharacter,
{
    let h = annotated(g);
    lemma_annotate_blank(g, y, x);
    assert forall|i: int| 0 <= i < h.len() implies !(#[trigger] h[i]).contains('\n') && strip_cr(
        h[i],
    ) == h[i] by {
        assert forall|j: int| 0 <= j < h[i].len() implies h[i][j] != '\n' && h[i][j] != '\r' by {
            assert(in_rows(g, i, j));
            lemma_annotated_cell_mine(g, i, j);
            let n = mine_count(g, i, j);
            if g[i][j] == BLANK && n > 0 {
                assert(((n + 48) as u8) as char != '\n');
                assert(((n + 48) as u8) as char != '\r');
            }
        }
        if h[i].len() > 0 {
            assert(h[i].last() == h[i][h[i].len() - 1]);
        }
    }
    lemma_lines_of_serialized(h);
    assert(in_rows(h, y, x));
    assert(has_invalid(h));
}

/// Annotating a board of mines and blanks a second time changes nothing.
pub proof fn lemma_annotate_idempotent(g: Seq<Seq<char>>)
    requires
        symbol_grid(g),
    ensures
        annotated(annotated(g)) == annotated(g),
{
    let h = annotated(g);
    assert forall|i: int, j: int| in_rows(h, i, j) implies (#[trigger] h[i][j] == MINE) == (g[i][j]
        == MINE) by {
        lemma_annotated_cell_mine(g, i, j);
    }
    assert(same_mines(h, g));
    assert forall|i: int| 0 <= i < h.len() implies #[trigger] annotated(h)[i] =~= h[i] by {
        assert forall|j: int| 0 <= j < h[i].len() implies annotated(h)[i][j] == h[i][j] by {
            lemma_same_mines_count(h, g, i, j);
            assert(in_rows(g, i, j));
            lemma_annotate_blank_of(g, i, j);
        }
    }
    assert(annotated(h) =~= h);
}

proof fn lemma_annotate_blank_of(g: Seq<Seq<char>>, i: int, j: int)
    requires
        symbol_grid(g),
        in_rows(g, i, j),
    ensures
        annotated(g)[i][j] == BLANK ==> g[i][j] == BLANK && mine_count(g, i, j) == 0,
{
    if g[i][j] == BLANK {
        lemma_annotate_blank(g, i, j);
    } else {
        assert(g[i][j] == MINE);
    }
}

/// Reading and annotating the same text twice gives the same board, or the same error.
pub proof fn lemma_count_deterministic(a: Seq<char>, b: Seq<char>)
    requires
        a == b,
    ensures
        counted(a) == counted(b),
{
}

} // verus!
