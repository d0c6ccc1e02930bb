//! Whole games: what holds of every board that a sequence of `apply` and
//! `undo` calls can lead to.

use vstd::prelude::*;
use crate::board::{
    empty_grid, has_line, is_grid, lemma_clear_grows, lemma_empty_grid_free,
    lemma_free_cells_lists, lemma_mark_shrinks, lemma_update_sums, lemma_winner_has_line,
    line_sums, occupied, winner_of,
};
use crate::game::GameView;
use crate::piece::{Piece, Turn};

verus! {

/// One call on a game: `apply` for a side and a cell, or `undo` of a cell.
pub enum Step {
    Apply { turn: Turn, position: int },
    Undo { position: int },
}

/// Whether the call meets the demands of `apply` or `undo` on `game`.
pub open spec fn step_allowed(game: GameView, step: Step) -> bool {
    match step {
        Step::Apply { turn, position } => 0 <= position < 9 && game.board[position] is Empty,
        Step::Undo { position } => 0 <= position < 9 && game.board[position] !is Empty,
    }
}

/// The game after the call.
pub open spec fn step_result(game: GameView, step: Step) -> GameView {
    match step {
        Step::Apply { turn, position } => game.apply(game.piece_of(turn), position),
        Step::Undo { position } => game.undo(position),
    }
}

/// The game after the calls `steps`, made in order on `start`.
pub open spec fn play(start: GameView, steps: Seq<Step>) -> GameView
    decreases steps.len(),
{
    if steps.len() == 0 {
        start
    } else {
        step_result(play(start, steps.drop_last()), steps.last())
    }
}

/// Whether every one of the calls `steps`, made in order on `start`, meets
/// the demands of the function it calls.
pub open spec fn playable(start: GameView, steps: Seq<Step>) -> bool
    decreases steps.len(),
{
    steps.len() == 0 || (playable(start, steps.drop_last()) && step_allowed(
        play(start, steps.drop_last()),
        steps.last(),
    ))
}

/// Number of `apply` calls among `steps` less the number of `undo` calls.
pub open spec fn net_applies(steps: Seq<Step>) -> int
    decreases steps.len(),
{
    if steps.len() == 0 {
        0
    } else {
        net_applies(steps.drop_last()) + if steps.last() is Apply {
            1int
        } else {
            -1int
        }
    }
}

/// Whether `steps` is a game as it is played: `first` opens, the sides take
/// turns, every move goes to a free cell, and nobody moves once a line is
/// complete.
pub open spec fn is_match(first: Turn, steps: Seq<Step>) -> bool
    decreases steps.len(),
{
    steps.len() == 0 || {
        let earlier = steps.drop_last();
        let game = play(GameView::initial(first), earlier);
        &&& is_match(first, earlier)
        &&& steps.last() is Apply
        &&& step_allowed(game, steps.last())
        &&& winner_of(game.board) is Empty
        &&& steps.last()->turn == if earlier.len() == 0 {
            first
        } else {
            earlier.last()->turn.spec_opponent()
        }
    }
}

/// A new game is well formed and has no mark on it.
pub proof fn lemma_initial_wf(first: Turn)
    ensures
        GameView::initial(first).wf(),
        occupied(GameView::initial(first).board) == 0,
{
    lemma_empty_grid_free();
}

/// Calls that meet the demands of `apply` and `undo` keep the game well
/// formed, and the number of marks on the board is the number of `apply`
/// calls less the number of `undo` calls.
pub proof fn lemma_play_counts(first: Turn, steps: Seq<Step>)
    requires
        playable(GameView::initial(first), steps),
    ensures
        play(GameView::initial(first), steps).wf(),
        occupied(play(GameView::initial(first), steps).board) == net_applies(steps),
    decreases steps.len(),
{
    let start = GameView::initial(first);
    if steps.len() == 0 {
        lemma_initial_wf(first);
    } else {
        let earlier = steps.drop_last();
        lemma_play_counts(first, earlier);
        let game = play(start, earlier);
        match steps.last() {
            Step::Apply { turn, position } => {
                game.lemma_apply_wf(game.piece_of(turn), position);
                lemma_mark_shrinks(game.board, position, game.piece_of(turn));
            },
            Step::Undo { position } => {
                game.lemma_undo_wf(position);
                lemma_clear_grows(game.board, position);
            },
        }
    }
}

/// The board is full exactly when nine more `apply` calls than `undo` calls
/// have been made on a new game.
pub proof fn lemma_full_iff_nine_net_applies(first: Turn, steps: Seq<Step>)
    requires
        playable(GameView::initial(first), steps),
    ensures
        play(GameView::initial(first), steps).moves.len() == 0 <==> net_applies(steps) == 9,
        0 <= net_applies(steps) <= 9,
{
    lemma_play_counts(first, steps);
    lemma_free_cells_lists(play(GameView::initial(first), steps).board);
}

/// A mark on a free cell leaves every line sum as it was or moves it by the
/// mark's value; a line sum never leaves the range from `-3` to `3`.
pub proof fn lemma_mark_moves_sums(cells: Seq<Piece>, position: int, piece: Piece)
    requires
        is_grid(cells),
        0 <= position < 9,
        cells[position] is Empty,
    ensures
        forall|i: int|
            0 <= i < 8 ==> -3 <= #[trigger] line_sums(cells)[i] <= 3 && (line_sums(
                cells.update(position, piece),
            )[i] == line_sums(cells)[i] || line_sums(cells.update(position, piece))[i]
                == line_sums(cells)[i] + piece.spec_value()),
{
    lemma_update_sums(cells, position, piece);
    let before = line_sums(cells);
    let after = line_sums(cells.update(position, piece));
    let value = piece.spec_value();
    assert(after[0] == before[0] || after[0] == before[0] + value);
    assert(after[1] == before[1] || after[1] == before[1] + value);
    assert(after[2] == before[2] || after[2] == before[2] + value);
    assert(after[3] == before[3] || after[3] == before[3] + value);
    assert(after[4] == before[4] || after[4] == before[4] + value);
    assert(after[5] == before[5] || after[5] == before[5] + value);
    assert(after[6] == before[6] || after[6] == before[6] + value);
    assert(after[7] == before[7] || after[7] == before[7] + value);
}

/// A mark on a free cell of a board without a completed line can complete
/// lines for its own side only.
pub proof fn lemma_mark_completes_own_lines(cells: Seq<Piece>, position: int, piece: Piece)
    requires
        is_grid(cells),
        0 <= position < 9,
        cells[position] is Empty,
        winner_of(cells) is Empty,
    ensures
        piece != Piece::Crosses ==> !has_line(cells.update(position, piece), Piece::Crosses),
        piece != Piece::Naughts ==> !has_line(cells.update(position, piece), Piece::Naughts),
{
    lemma_winner_has_line(cells);
    lemma_mark_moves_sums(cells, position, piece);
    let before = line_sums(cells);
    let after = line_sums(cells.update(position, piece));
    assert forall|i: int| 0 <= i < 8 implies #[trigger] before[i] != 3 && before[i] != -3 by {
        if before[i] == 3 {
            assert(before[i] == 3 * Piece::Crosses.spec_value());
        }
        if before[i] == -3 {
            assert(before[i] == 3 * Piece::Naughts.spec_value());
        }
    }
    if piece != Piece::Crosses {
        assert forall|i: int| 0 <= i < 8 implies #[trigger] after[i] != 3
            * Piece::Crosses.spec_value() by {
            assert(before[i] != 3);
        }
    }
    if piece != Piece::Naughts {
        assert forall|i: int| 0 <= i < 8 implies #[trigger] after[i] != 3
            * Piece::Naughts.spec_value() by {
            assert(before[i] != -3);
        }
    }
}

/// In a game as it is played the two sides never both hold a completed
/// line, so the side that `winner` names is the only one that holds any.
pub proof fn lemma_single_winner(first: Turn, steps: Seq<Step>)
    requires
        is_match(first, steps),
    ensures
        playable(GameView::initial(first), steps),
        !(has_line(play(GameView::initial(first), steps).board, Piece::Crosses) && has_line(
            play(GameView::initial(first), steps).board,
            Piece::Naughts,
        )),
        winner_of(play(GameView::initial(first), steps).board) == Piece::Crosses <==> has_line(
            play(GameView::initial(first), steps).board,
            Piece::Crosses,
        ),
        winner_of(play(GameView::initial(first), steps).board) == Piece::Naughts <==> has_line(
            play(GameView::initial(first), steps).board,
            Piece::Naughts,
        ),
    decreases steps.len(),
{
    let start = GameView::initial(first);
    let board = play(start, steps).board;
    if steps.len() == 0 {
        assert forall|i: int| 0 <= i < 8 implies line_sums(empty_grid())[i] == 0 by {}
    } else {
        let earlier = steps.drop_last();
        lemma_single_winner(first, earlier);
        lemma_play_counts(first, earlier);
        let game = play(start, earlier);
        let position = steps.last()->Apply_position;
        let piece = game.piece_of(steps.last()->turn);
        lemma_mark_completes_own_lines(game.board, position, piece);
    }
    lemma_winner_has_line(board);
}

} // verus!
