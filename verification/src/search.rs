//! Exhaustive minimax over the free cells.
//!
//! `game_value` defines the value of a position under perfect play; the
//! executable search is proved to return that value together with the first
//! free cell, in ascending order, that achieves it.

use vstd::prelude::*;
use crate::board::{
    free_cells, is_grid, lemma_free_cells_lists, lemma_mark_shrinks, winner_of, NO_MOVE,
};
use crate::game::GameState;
use crate::piece::Piece;

verus! {

/// What a search returns: the value of the position under perfect play and
/// the cell to play, `NO_MOVE` where the game is over.
#[derive(Clone, Copy, Debug, PartialEq, Eq, Structural)]
pub struct Root {
    pub score: isize,
    pub index: usize,
}

/// The mark of the side to move: crosses maximize, naughts minimize.
pub open spec fn mover(is_max: bool) -> Piece {
    if is_max {
        Piece::Crosses
    } else {
        Piece::Naughts
    }
}

/// The game is over: the grid is full or somebody has completed a line.
pub open spec fn is_terminal(cells: Seq<Piece>) -> bool {
    free_cells(cells).len() == 0 || winner_of(cells) !is Empty
}

/// A bound that every real value beats: `-2` for the maximizing side, `+2`
/// for the minimizing side.
pub open spec fn worst(is_max: bool) -> int {
    if is_max {
        -2
    } else {
        2
    }
}

/// Whether the side to move strictly prefers `candidate` to `best`.
pub open spec fn improves(is_max: bool, candidate: int, best: int) -> bool {
    if is_max {
        candidate > best
    } else {
        candidate < best
    }
}

/// The one of two values that the side to move prefers.
pub open spec fn better_of(is_max: bool, a: int, b: int) -> int {
    if improves(is_max, b, a) {
        b
    } else {
        a
    }
}

/// The value of a position under perfect play by both sides: `+1` when
/// crosses win, `-1` when naughts win, `0` for a draw.  A finished game has
/// the value of its winner; otherwise the side to move picks the reply whose
/// position is best for it.
pub open spec fn game_value(cells: Seq<Piece>, is_max: bool) -> int
    decreases free_cells(cells).len(), 10int,
{
    if !is_grid(cells) || is_terminal(cells) {
        winner_of(cells).spec_value()
    } else {
        best_reply_below(cells, is_max, 9)
    }
}

/// The best value that the side to move reaches by marking a free cell with
/// index below `limit`; `worst(is_max)` when no such cell is free.
pub open spec fn best_reply_below(cells: Seq<Piece>, is_max: bool, limit: int) -> int
    decreases free_cells(cells).len(), limit,
{
    if !is_grid(cells) || limit <= 0 || limit > 9 {
        worst(is_max)
    } else if cells[limit - 1] !is Empty {
        best_reply_below(cells, is_max, limit - 1)
    } else {
        proof {
            lemma_mark_shrinks(cells, limit - 1, mover(is_max));
        }
        better_of(
            is_max,
            best_reply_below(cells, is_max, limit - 1),
            game_value(cells.update(limit - 1, mover(is_max)), !is_max),
        )
    }
}

/// The value of the position that the side to move reaches by marking cell
/// `position`.
pub open spec fn reply_value(cells: Seq<Piece>, is_max: bool, position: int) -> int {
    game_value(cells.update(position, mover(is_max)), !is_max)
}

/// `position` is the move that a search returns: a free cell whose reply has
/// the value of the position, which no other reply improves on, and before
/// which no free cell does as well.
pub open spec fn is_first_best(cells: Seq<Piece>, is_max: bool, position: int) -> bool {
    &&& 0 <= position < 9
    &&& cells[position] is Empty
    &&& reply_value(cells, is_max, position) == game_value(cells, is_max)
    &&& forall|k: int|
        0 <= k < 9 && cells[k] is Empty ==> !improves(
            is_max,
            #[trigger] reply_value(cells, is_max, k),
            game_value(cells, is_max),
        )
    &&& forall|k: int|
        0 <= k < position && cells[k] is Empty ==> #[trigger] reply_value(cells, is_max, k)
            != game_value(cells, is_max)
}

/// `root` is what a search of `cells` returns for the side to move.
pub open spec fn is_search_result(cells: Seq<Piece>, is_max: bool, root: Root) -> bool {
    &&& root.score == game_value(cells, is_max)
    &&& -1 <= root.score <= 1
    &&& if is_terminal(cells) {
        root.index == NO_MOVE
    } else {
        is_first_best(cells, is_max, root.index as int)
    }
}

/// `best` is the running result of a scan that has tried every free cell
/// below `limit`: its score is the best reply value so far, no tried reply
/// improves on it, and its index is the first tried cell that reaches it.
/// Before the first free cell the scan still holds `worst(is_max)` and index 0.
pub open spec fn is_best_below(cells: Seq<Piece>, is_max: bool, limit: int, best: Root) -> bool {
    &&& best.score == best_reply_below(cells, is_max, limit)
    &&& forall|k: int|
        0 <= k < limit && cells[k] is Empty ==> !improves(
            is_max,
            #[trigger] reply_value(cells, is_max, k),
            best.score as int,
        )
    &&& if best.score == worst(is_max) {
        &&& best.index == 0
        &&& forall|k: int| 0 <= k < limit ==> cells[k] !is Empty
    } else {
        &&& -1 <= best.score <= 1
        &&& best.index < limit
        &&& cells[best.index as int] is Empty
        &&& reply_value(cells, is_max, best.index as int) == best.score
        &&& forall|k: int|
            0 <= k < best.index && cells[k] is Empty ==> #[trigger] reply_value(cells, is_max, k)
                != best.score
    }
}

/// Occupied cells contribute nothing to the best reply.
pub proof fn lemma_best_reply_skip(cells: Seq<Piece>, is_max: bool, from: int, to: int)
    requires
        is_grid(cells),
        0 <= from <= to <= 9,
        forall|k: int| from <= k < to ==> cells[k] !is Empty,
    ensures
        best_reply_below(cells, is_max, to) == best_reply_below(cells, is_max, from),
    decreases to - from,
{
    if from < to {
        lemma_best_reply_skip(cells, is_max, from, to - 1);
    }
}

/// Between two neighbours of the free list every cell is occupied, and so is
/// every cell before the first entry and after the last.
pub proof fn lemma_gap_occupied(cells: Seq<Piece>, at: int)
    requires
        is_grid(cells),
        0 <= at <= free_cells(cells).len(),
    ensures
        forall|k: int|
            (if at == 0 {
                0
            } else {
                free_cells(cells)[at - 1] + 1
            }) <= k < (if at < free_cells(cells).len() {
                free_cells(cells)[at] as int
            } else {
                9
            }) ==> cells[k] !is Empty,
{
    let moves = free_cells(cells);
    lemma_free_cells_lists(cells);
    let low = if at == 0 {
        0
    } else {
        moves[at - 1] + 1
    };
    let high = if at < moves.len() {
        moves[at] as int
    } else {
        9
    };
    assert forall|k: int| low <= k < high implies cells[k] !is Empty by {
        if cells[k] is Empty {
            assert(moves.contains(k as usize));
            let j = moves.index_of(k as usize);
            if j < at {
                if j < at - 1 {
                    assert(moves[j] < moves[at - 1]);
                }
            } else {
                if at < j {
                    assert(moves[at] < moves[j]);
                }
            }
        }
    }
}

/// One step of the scan: trying the free cell `position`, with every cell
/// between it and `next` occupied, carries the running result from
/// `position` to `next`.
pub proof fn lemma_scan_step(
    cells: Seq<Piece>,
    is_max: bool,
    position: int,
    next: int,
    best: Root,
    score: isize,
)
    requires
        is_grid(cells),
        0 <= position < next <= 9,
        cells[position] is Empty,
        forall|k: int| position < k < next ==> cells[k] !is Empty,
        is_best_below(cells, is_max, position, best),
        score == reply_value(cells, is_max, position),
        -1 <= score <= 1,
    ensures
        is_best_below(
            cells,
            is_max,
            next,
            if improves(is_max, score as int, best.score as int) {
                Root { score, index: position as usize }
            } else {
                best
            },
        ),
{
    let after = if improves(is_max, score as int, best.score as int) {
        Root { score, index: position as usize }
    } else {
        best
    };
    lemma_best_reply_skip(cells, is_max, position + 1, next);
    assert(best_reply_below(cells, is_max, position + 1) == better_of(
        is_max,
        best_reply_below(cells, is_max, position),
        reply_value(cells, is_max, position),
    ));
    assert(after.score == best_reply_below(cells, is_max, next));
    assert forall|k: int| 0 <= k < next && cells[k] is Empty implies !improves(
        is_max,
        #[trigger] reply_value(cells, is_max, k),
        after.score as int,
    ) by {
        if k < position {
            assert(!improves(is_max, reply_value(cells, is_max, k), best.score as int));
        } else {
            assert(k == position);
        }
    }
    if after.score != worst(is_max) {
        assert forall|k: int| 0 <= k < after.index && cells[k] is Empty implies #[trigger]
            reply_value(cells, is_max, k) != after.score by {
            if improves(is_max, score as int, best.score as int) {
                assert(!improves(is_max, reply_value(cells, is_max, k), best.score as int));
            }
        }
    }
}

/// A scan that has tried every cell of a game still in progress holds the
/// result of the search.
pub proof fn lemma_scan_done(cells: Seq<Piece>, is_max: bool, best: Root)
    requires
        is_grid(cells),
        !is_terminal(cells),
        is_best_below(cells, is_max, 9, best),
    ensures
        is_search_result(cells, is_max, best),
{
    lemma_free_cells_lists(cells);
    let first = free_cells(cells)[0];
    assert(cells[first as int] is Empty);
}

/// Every position has one of the values `-1`, `0` and `1`.
pub proof fn lemma_game_value_range(cells: Seq<Piece>, is_max: bool)
    ensures
        -1 <= game_value(cells, is_max) <= 1,
    decreases free_cells(cells).len(), 10int,
{
    if is_grid(cells) && !is_terminal(cells) {
        lemma_free_cells_lists(cells);
        let first = free_cells(cells)[0];
        assert(cells[first as int] is Empty);
        lemma_best_reply_range(cells, is_max, 9);
    }
}

/// The best reply below `limit` is a real value as soon as a cell below
/// `limit` is free, and the bound `worst(is_max)` until then.
pub proof fn lemma_best_reply_range(cells: Seq<Piece>, is_max: bool, limit: int)
    requires
        is_grid(cells),
        0 <= limit <= 9,
    ensures
        if exists|k: int| 0 <= k < limit && cells[k] is Empty {
            -1 <= best_reply_below(cells, is_max, limit) <= 1
        } else {
            best_reply_below(cells, is_max, limit) == worst(is_max)
        },
    decreases free_cells(cells).len(), limit,
{
    if limit > 0 {
        lemma_best_reply_range(cells, is_max, limit - 1);
        if cells[limit - 1] is Empty {
            lemma_mark_shrinks(cells, limit - 1, mover(is_max));
            lemma_game_value_range(cells.update(limit - 1, mover(is_max)), !is_max);
        } else {
            if exists|k: int| 0 <= k < limit && cells[k] is Empty {
                let k = choose|k: int| 0 <= k < limit && cells[k] is Empty;
                assert(0 <= k < limit - 1 && cells[k] is Empty);
            }
        }
    }
}

/// A full board on which nobody has completed a line is a draw.
pub proof fn lemma_full_board_draw(cells: Seq<Piece>, is_max: bool)
    requires
        is_grid(cells),
        free_cells(cells).len() == 0,
        winner_of(cells) is Empty,
    ensures
        game_value(cells, is_max) == 0,
        is_search_result(cells, is_max, Root { score: 0, index: NO_MOVE }),
{
}

/// With one cell left, no line completed, and none completed by the mark
/// that fills the board, the position is a draw and the last cell the move.
pub proof fn lemma_last_move_draw(cells: Seq<Piece>, is_max: bool)
    requires
        is_grid(cells),
        free_cells(cells).len() == 1,
        winner_of(cells) is Empty,
        winner_of(cells.update(free_cells(cells)[0] as int, mover(is_max))) is Empty,
    ensures
        game_value(cells, is_max) == 0,
        is_search_result(cells, is_max, Root { score: 0, index: free_cells(cells)[0] }),
{
    lemma_free_cells_lists(cells);
    let last = free_cells(cells)[0] as int;
    let filled = cells.update(last, mover(is_max));
    lemma_mark_shrinks(cells, last, mover(is_max));
    assert(reply_value(cells, is_max, last) == 0);
    lemma_gap_occupied(cells, 0);
    lemma_gap_occupied(cells, 1);
    lemma_best_reply_skip(cells, is_max, 0, last);
    lemma_best_reply_skip(cells, is_max, last + 1, 9);
    assert(best_reply_below(cells, is_max, last + 1) == better_of(
        is_max,
        best_reply_below(cells, is_max, last),
        reply_value(cells, is_max, last),
    ));
    assert forall|k: int| 0 <= k < 9 && cells[k] is Empty implies k == last by {
        assert(free_cells(cells).contains(k as usize));
    }
}

impl GameState {
    /// The value of the position under perfect play and the move to make,
    /// for crosses when `is_max` holds and for naughts otherwise.  Among
    /// equally good moves the one with the lowest index is returned; a
    /// finished game has no move, and `NO_MOVE` stands in its place.
    pub fn minimax(&self, is_max: bool) -> (root: Root)
        requires
            self.wf(),
        ensures
            is_search_result(self@.board, is_max, root),
    {
        let mut scratch = self.clone();
        scratch.search(is_max)
    }

    /// The search itself, on a board that it marks and clears as it goes and
    /// hands back as it found it.
    pub fn search(&mut self, is_max: bool) -> (root: Root)
        requires
            old(self).wf(),
        ensures
            final(self)@ == old(self)@,
            is_search_result(old(self)@.board, is_max, root),
        decreases old(self)@.moves.len(),
    {
        let ghost before = self@;
        let ghost cells = before.board;
        let winner = self.winner();
        if self.full() || winner != Piece::Empty {
            return Root { score: winner.value(), index: NO_MOVE };
        }
        let side = if is_max {
            self.crosses()
        } else {
            self.naughts()
        };
        let count = self.moves().len();
        let mut best = Root { score: if is_max { -2 } else { 2 }, index: 0 };
        let mut i: usize = 0;
        proof {
            lemma_free_cells_lists(cells);
            lemma_gap_occupied(cells, 0);
            lemma_best_reply_skip(cells, is_max, 0, before.moves[0] as int);
        }
        while i < count
            invariant
                self@ == before,
                before.wf(),
                cells == before.board,
                !is_terminal(cells),
                count == before.moves.len(),
                0 <= i <= count,
                old(self)@ == before,
                before.piece_of(side) == mover(is_max),
                is_best_below(
                    cells,
                    is_max,
                    if i < count {
                        before.moves[i as int] as int
                    } else {
                        9
                    },
                    best,
                ),
            decreases count - i,
        {
            let position = self.moves()[i];
            proof {
                lemma_free_cells_lists(cells);
                lemma_mark_shrinks(cells, position as int, mover(is_max));
                before.lemma_apply_wf(mover(is_max), position as int);
                before.lemma_apply_undo(mover(is_max), position as int);
                lemma_gap_occupied(cells, i + 1);
            }
            self.apply(&side, &position);
            let reply = self.search(!is_max);
            proof {
                lemma_scan_step(
                    cells,
                    is_max,
                    position as int,
                    if i + 1 < count {
                        before.moves[i + 1] as int
                    } else {
                        9
                    },
                    best,
                    reply.score,
                );
            }
            if (is_max && reply.score > best.score) || (!is_max && reply.score < best.score) {
                best = Root { score: reply.score, index: position };
            }
            self.undo(&position);
            i += 1;
        }
        proof {
            lemma_scan_done(cells, is_max, best);
        }
        best
    }
}

} // verus!
