//! The mathematics of the grid: nine cells in row-major order, the eight
//! lines through them, who owns a completed line, and which cells are free.
//!
//! Everything here speaks of a plain `Seq<Piece>`; the executable board in
//! `game` is specified against these definitions.

use vstd::prelude::*;
use crate::piece::Piece;

verus! {

/// The index that a search returns when the position admits no move.
pub const NO_MOVE: usize = 9;

/// A grid is a sequence of exactly nine cells, cell `3 * row + column`.
pub open spec fn is_grid(cells: Seq<Piece>) -> bool {
    cells.len() == 9
}

/// The grid with no mark on it.
pub open spec fn empty_grid() -> Seq<Piece> {
    Seq::new(9, |k: int| Piece::Empty)
}

/// Signed sum of the three cells of row `r`.
pub open spec fn row_sum(cells: Seq<Piece>, r: int) -> int {
    cells[3 * r].spec_value() + cells[3 * r + 1].spec_value() + cells[3 * r + 2].spec_value()
}

/// Signed sum of the three cells of column `c`.
pub open spec fn column_sum(cells: Seq<Piece>, c: int) -> int {
    cells[c].spec_value() + cells[c + 3].spec_value() + cells[c + 6].spec_value()
}

/// Signed sum of the diagonal, cells 0, 4 and 8.
pub open spec fn diagonal_sum(cells: Seq<Piece>) -> int {
    cells[0].spec_value() + cells[4].spec_value() + cells[8].spec_value()
}

/// Signed sum of the counter-diagonal, cells 2, 4 and 6.
pub open spec fn cdiagonal_sum(cells: Seq<Piece>) -> int {
    cells[2].spec_value() + cells[4].spec_value() + cells[6].spec_value()
}

/// Whether a cell lies on the diagonal.
pub open spec fn on_diagonal(position: int) -> bool {
    position % 3 == position / 3
}

/// Whether a cell lies on the counter-diagonal.
pub open spec fn on_cdiagonal(position: int) -> bool {
    2 - position % 3 == position / 3
}

/// The sum of line `i`, the lines taken in the order in which a winner is
/// looked for: the rows from the top, the columns from the left, the
/// diagonal, the counter-diagonal.
pub open spec fn line_sum(cells: Seq<Piece>, i: int) -> int {
    if i < 3 {
        row_sum(cells, i)
    } else if i < 6 {
        column_sum(cells, i - 3)
    } else if i == 6 {
        diagonal_sum(cells)
    } else {
        cdiagonal_sum(cells)
    }
}

/// The eight line sums, in that order.
pub open spec fn line_sums(cells: Seq<Piece>) -> Seq<int> {
    Seq::new(8, |i: int| line_sum(cells, i))
}

/// Whom a line with the given sum belongs to: a sum of `+3` is three crosses,
/// a sum of `-3` three naughts, anything else an undecided line.
pub open spec fn line_owner(sum: int) -> Piece {
    if sum == 3 {
        Piece::Crosses
    } else if sum == -3 {
        Piece::Naughts
    } else {
        Piece::Empty
    }
}

/// The owner of the first decided line among `sums[from..]`, or `Empty` when
/// none of them is decided.
pub open spec fn first_owner(sums: Seq<int>, from: int) -> Piece
    decreases sums.len() - from,
{
    if from < 0 || from >= sums.len() {
        Piece::Empty
    } else if line_owner(sums[from]) !is Empty {
        line_owner(sums[from])
    } else {
        first_owner(sums, from + 1)
    }
}

/// Undecided lines at the front of a scan do not change its result.
pub proof fn lemma_first_owner_skip(sums: Seq<int>, from: int, to: int)
    requires
        0 <= from <= to <= sums.len(),
        forall|i: int| from <= i < to ==> line_owner(#[trigger] sums[i]) is Empty,
    ensures
        first_owner(sums, from) == first_owner(sums, to),
    decreases to - from,
{
    if from < to {
        lemma_first_owner_skip(sums, from + 1, to);
    }
}

/// The winner of a grid: the owner of the first completed line in scan order,
/// `Empty` when no line is complete.
pub open spec fn winner_of(cells: Seq<Piece>) -> Piece {
    first_owner(line_sums(cells), 0)
}

/// Whether `piece` has completed at least one of the eight lines.
pub open spec fn has_line(cells: Seq<Piece>, piece: Piece) -> bool {
    exists|i: int| 0 <= i < 8 && #[trigger] line_sums(cells)[i] == 3 * piece.spec_value()
}

/// Replacing the content of one cell changes exactly the sums of the lines
/// through that cell, each by the difference of the two marks' values.
pub proof fn lemma_update_sums(cells: Seq<Piece>, position: int, piece: Piece)
    requires
        is_grid(cells),
        0 <= position < 9,
    ensures
        forall|r: int|
            0 <= r < 3 ==> #[trigger] row_sum(cells.update(position, piece), r) == row_sum(cells, r)
                + if r == position / 3 {
                piece.spec_value() - cells[position].spec_value()
            } else {
                0
            },
        forall|c: int|
            0 <= c < 3 ==> #[trigger] column_sum(cells.update(position, piece), c) == column_sum(
                cells,
                c,
            ) + if c == position % 3 {
                piece.spec_value() - cells[position].spec_value()
            } else {
                0
            },
        diagonal_sum(cells.update(position, piece)) == diagonal_sum(cells) + if on_diagonal(
            position,
        ) {
            piece.spec_value() - cells[position].spec_value()
        } else {
            0
        },
        cdiagonal_sum(cells.update(position, piece)) == cdiagonal_sum(cells) + if on_cdiagonal(
            position,
        ) {
            piece.spec_value() - cells[position].spec_value()
        } else {
            0
        },
{
    let marked = cells.update(position, piece);
    assert forall|k: int| 0 <= k < 9 implies #[trigger] marked[k] == if k == position {
        piece
    } else {
        cells[k]
    } by {}
    if position == 0 {
    } else if position == 1 {
    } else if position == 2 {
    } else if position == 3 {
    } else if position == 4 {
    } else if position == 5 {
    } else if position == 6 {
    } else if position == 7 {
    } else {
    }
}

/// The free cells with index below `k`, in ascending order.
pub open spec fn free_below(cells: Seq<Piece>, k: int) -> Seq<usize>
    decreases k,
{
    if k <= 0 {
        Seq::empty()
    } else if cells[k - 1] is Empty {
        free_below(cells, k - 1).push((k - 1) as usize)
    } else {
        free_below(cells, k - 1)
    }
}

/// The free cells of a grid, in ascending order.
pub open spec fn free_cells(cells: Seq<Piece>) -> Seq<usize> {
    free_below(cells, 9)
}

/// Number of marks on the grid.
pub open spec fn occupied(cells: Seq<Piece>) -> int {
    9 - free_cells(cells).len()
}

/// `moves` lists, in strictly ascending order, exactly the free cells below
/// `k`.
pub open spec fn lists_free_below(moves: Seq<usize>, cells: Seq<Piece>, k: int) -> bool {
    &&& forall|i: int, j: int| 0 <= i < j < moves.len() ==> moves[i] < moves[j]
    &&& forall|i: int| 0 <= i < moves.len() ==> moves[i] < k && cells[moves[i] as int] is Empty
    &&& forall|c: int| 0 <= c < k && cells[c] is Empty ==> moves.contains(c as usize)
}

/// `free_below` is ascending, holds only free cells and misses none.
pub proof fn lemma_free_below_lists(cells: Seq<Piece>, k: int)
    requires
        0 <= k <= 9,
    ensures
        lists_free_below(free_below(cells, k), cells, k),
        free_below(cells, k).len() <= k,
    decreases k,
{
    if k > 0 {
        lemma_free_below_lists(cells, k - 1);
        let prev = free_below(cells, k - 1);
        let cur = free_below(cells, k);
        if cells[k - 1] is Empty {
            assert(cur[cur.len() - 1] == (k - 1) as usize);
            assert forall|c: int| 0 <= c < k && cells[c] is Empty implies cur.contains(
                c as usize,
            ) by {
                if c < k - 1 {
                    let i = prev.index_of(c as usize);
                    assert(cur[i] == c as usize);
                } else {
                    assert(cur[cur.len() - 1] == c as usize);
                }
            }
        } else {
            assert forall|c: int| 0 <= c < k && cells[c] is Empty implies cur.contains(
                c as usize,
            ) by {
                let i = prev.index_of(c as usize);
                assert(cur[i] == c as usize);
            }
        }
    }
}

/// Only one sequence lists the free cells below `k` in ascending order.
pub proof fn lemma_free_below_unique(moves: Seq<usize>, cells: Seq<Piece>, k: int)
    requires
        0 <= k <= 9,
        lists_free_below(moves, cells, k),
    ensures
        moves == free_below(cells, k),
    decreases k,
{
    if k == 0 {
        if moves.len() > 0 {
            assert(moves[0] < k);
        }
        assert(moves =~= free_below(cells, k));
    } else if cells[k - 1] is Empty {
        let at = moves.index_of((k - 1) as usize);
        assert(moves.contains((k - 1) as usize));
        if at < moves.len() - 1 {
            assert(moves[at] < moves[moves.len() - 1]);
        }
        let front = moves.drop_last();
        assert forall|c: int| 0 <= c < k - 1 && cells[c] is Empty implies front.contains(
            c as usize,
        ) by {
            let i = moves.index_of(c as usize);
            assert(moves.contains(c as usize));
            assert(front[i] == c as usize);
        }
        assert forall|i: int| 0 <= i < front.len() implies front[i] < k - 1
            && cells[front[i] as int] is Empty by {
            assert(moves[i] < moves[moves.len() - 1]);
        }
        lemma_free_below_unique(front, cells, k - 1);
        assert(moves =~= front.push((k - 1) as usize));
    } else {
        assert forall|i: int| 0 <= i < moves.len() implies moves[i] < k - 1 by {
            assert(cells[moves[i] as int] is Empty);
        }
        assert forall|c: int| 0 <= c < k - 1 && cells[c] is Empty implies moves.contains(
            c as usize,
        ) by {
            assert(moves.contains(c as usize));
        }
        lemma_free_below_unique(moves, cells, k - 1);
    }
}

/// The list of free cells is ascending, holds only free cells and misses none.
pub proof fn lemma_free_cells_lists(cells: Seq<Piece>)
    ensures
        lists_free_below(free_cells(cells), cells, 9),
        free_cells(cells).len() <= 9,
{
    lemma_free_below_lists(cells, 9);
}

/// Marking the free cell listed at `at` takes exactly that entry off the list.
pub proof fn lemma_free_cells_mark(cells: Seq<Piece>, at: int, piece: Piece)
    requires
        is_grid(cells),
        0 <= at < free_cells(cells).len(),
        piece !is Empty,
    ensures
        free_cells(cells.update(free_cells(cells)[at] as int, piece)) == free_cells(cells).remove(
            at,
        ),
{
    let moves = free_cells(cells);
    lemma_free_cells_lists(cells);
    let position = moves[at] as int;
    let marked = cells.update(position, piece);
    let rest = moves.remove(at);
    assert forall|c: int| 0 <= c < 9 && marked[c] is Empty implies rest.contains(c as usize) by {
        assert(cells[c] is Empty);
        let i = moves.index_of(c as usize);
        assert(moves.contains(c as usize));
        if i < at {
            assert(rest[i] == c as usize);
        } else {
            assert(rest[i - 1] == c as usize);
        }
    }
    assert forall|i: int| 0 <= i < rest.len() implies rest[i] < 9
        && marked[rest[i] as int] is Empty by {
        if i < at {
            assert(moves[i] < moves[at]);
        } else {
            assert(moves[at] < moves[i + 1]);
        }
    }
    lemma_free_below_unique(rest, marked, 9);
}

/// Marking a free cell leaves one free cell fewer.
pub proof fn lemma_mark_shrinks(cells: Seq<Piece>, position: int, piece: Piece)
    requires
        is_grid(cells),
        0 <= position < 9,
        cells[position] is Empty,
        piece !is Empty,
    ensures
        free_cells(cells.update(position, piece)).len() == free_cells(cells).len() - 1,
{
    lemma_free_cells_lists(cells);
    let moves = free_cells(cells);
    assert(moves.contains(position as usize));
    lemma_free_cells_mark(cells, moves.index_of(position as usize), piece);
}

/// Clearing an occupied cell puts it back on the list at the place `at` that
/// keeps the list ascending.
pub proof fn lemma_free_cells_clear(cells: Seq<Piece>, position: int, at: int)
    requires
        is_grid(cells),
        0 <= position < 9,
        cells[position] !is Empty,
        0 <= at <= free_cells(cells).len(),
        forall|i: int| 0 <= i < at ==> free_cells(cells)[i] < position,
        forall|i: int| at <= i < free_cells(cells).len() ==> position < free_cells(cells)[i],
    ensures
        free_cells(cells.update(position, Piece::Empty)) == free_cells(cells).insert(
            at,
            position as usize,
        ),
{
    let moves = free_cells(cells);
    lemma_free_cells_lists(cells);
    let cleared = cells.update(position, Piece::Empty);
    let more = moves.insert(at, position as usize);
    assert(more[at] == position as usize);
    assert forall|c: int| 0 <= c < 9 && cleared[c] is Empty implies more.contains(c as usize) by {
        if c == position {
            assert(more[at] == c as usize);
        } else {
            let i = moves.index_of(c as usize);
            assert(moves.contains(c as usize));
            if i < at {
                assert(more[i] == c as usize);
            } else {
                assert(more[i + 1] == c as usize);
            }
        }
    }
    lemma_free_below_unique(more, cleared, 9);
}

/// Clearing an occupied cell leaves one free cell more.
pub proof fn lemma_clear_grows(cells: Seq<Piece>, position: int)
    requires
        is_grid(cells),
        0 <= position < 9,
        cells[position] !is Empty,
    ensures
        free_cells(cells.update(position, Piece::Empty)).len() == free_cells(cells).len() + 1,
{
    let cleared = cells.update(position, Piece::Empty);
    lemma_mark_shrinks(cleared, position, cells[position]);
    assert(cleared.update(position, cells[position]) =~= cells);
}

/// On the empty grid every cell is free.
pub proof fn lemma_empty_grid_free()
    ensures
        free_cells(empty_grid()) == Seq::new(9, |k: int| k as usize),
{
    let moves = Seq::new(9, |k: int| k as usize);
    let cells = empty_grid();
    assert forall|c: int| 0 <= c < 9 && cells[c] is Empty implies moves.contains(c as usize) by {
        assert(moves[c] == c as usize);
    }
    lemma_free_below_unique(moves, cells, 9);
}

/// A grid has no winner exactly when neither side has completed a line, and
/// a winner has completed one.
pub proof fn lemma_winner_has_line(cells: Seq<Piece>)
    ensures
        winner_of(cells) is Empty <==> !has_line(cells, Piece::Crosses) && !has_line(
            cells,
            Piece::Naughts,
        ),
        winner_of(cells) !is Empty ==> has_line(cells, winner_of(cells)),
        !has_line(cells, Piece::Naughts) ==> (winner_of(cells) == Piece::Crosses <==> has_line(
            cells,
            Piece::Crosses,
        )),
        !has_line(cells, Piece::Crosses) ==> (winner_of(cells) == Piece::Naughts <==> has_line(
            cells,
            Piece::Naughts,
        )),
{
    let sums = line_sums(cells);
    reveal_with_fuel(first_owner, 9);
    if winner_of(cells) !is Empty {
        let i = choose|i: int| 0 <= i < 8 && line_owner(sums[i]) == winner_of(cells);
        assert(sums[i] == 3 * winner_of(cells).spec_value());
    }
}

} // verus!
