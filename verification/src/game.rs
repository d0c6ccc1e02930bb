//! The executable board: nine cells, cached line sums and the ascending list
//! of free cells, with `apply` and `undo` of a single move.

use vstd::prelude::*;
use crate::board::{
    cdiagonal_sum, column_sum, diagonal_sum, empty_grid, free_cells, is_grid,
    lemma_empty_grid_free, lemma_first_owner_skip, lemma_free_cells_clear,
    lemma_free_cells_lists, lemma_free_cells_mark, lemma_update_sums, line_owner, line_sums,
    occupied, on_cdiagonal, on_diagonal, row_sum, winner_of,
};
use crate::piece::{Piece, Turn};

verus! {

/// The cached line sums: `+1` for every cross and `-1` for every naught on the
/// line.
#[derive(Clone, Copy, Debug, PartialEq, Eq)]
pub struct BoardState {
    pub row: [isize; 3],
    pub column: [isize; 3],
    pub diagonal: isize,
    pub cdiagonal: isize,
}

/// A game in progress.
#[derive(Debug)]
pub struct GameState {
    moves: Vec<usize>,
    board: [Piece; 9],
    crosses: Turn,
    naughts: Turn,
    state: BoardState,
    current_turn: Turn,
}

/// What a `GameState` holds, as mathematical values.
#[verifier::ext_equal]
pub struct GameView {
    /// The free cells, in ascending order.
    pub moves: Seq<usize>,
    /// The nine cells, row by row.
    pub board: Seq<Piece>,
    /// The side that plays the crosses.
    pub crosses: Turn,
    /// The side that plays the naughts.
    pub naughts: Turn,
    /// The three row sums, from the top.
    pub row: Seq<int>,
    /// The three column sums, from the left.
    pub column: Seq<int>,
    /// The sum of the diagonal.
    pub diagonal: int,
    /// The sum of the counter-diagonal.
    pub cdiagonal: int,
    /// The side that the driver has recorded as next to move.
    pub current_turn: Turn,
}

/// Whether `position` may enter the ascending list `moves` at index `at`:
/// every entry before `at` is smaller and every entry from `at` on is larger.
pub open spec fn fits_at(moves: Seq<usize>, position: usize, at: int) -> bool {
    &&& 0 <= at <= moves.len()
    &&& forall|i: int| 0 <= i < at ==> moves[i] < position
    &&& forall|i: int| at <= i < moves.len() ==> position < moves[i]
}

/// Where `position` goes into the ascending list `moves`.
pub open spec fn insertion_point(moves: Seq<usize>, position: usize) -> int {
    choose|at: int| fits_at(moves, position, at)
}

impl GameView {
    /// The game before the first move, with `first` playing the crosses and
    /// moving first.
    pub open spec fn initial(first: Turn) -> GameView {
        GameView {
            moves: Seq::new(9, |k: int| k as usize),
            board: empty_grid(),
            crosses: first,
            naughts: first.spec_opponent(),
            row: Seq::new(3, |r: int| 0int),
            column: Seq::new(3, |c: int| 0int),
            diagonal: 0,
            cdiagonal: 0,
            current_turn: first,
        }
    }

    /// The caches agree with the cells: every sum is the sum of its line,
    /// the free list is the ascending list of the empty cells, and the two
    /// sides differ.
    pub open spec fn wf(self) -> bool {
        &&& is_grid(self.board)
        &&& self.row.len() == 3
        &&& self.column.len() == 3
        &&& forall|r: int| 0 <= r < 3 ==> self.row[r] == row_sum(self.board, r)
        &&& forall|c: int| 0 <= c < 3 ==> self.column[c] == column_sum(self.board, c)
        &&& self.diagonal == diagonal_sum(self.board)
        &&& self.cdiagonal == cdiagonal_sum(self.board)
        &&& self.moves == free_cells(self.board)
        &&& self.naughts == self.crosses.spec_opponent()
    }

    /// The mark that `turn` places.
    pub open spec fn piece_of(self, turn: Turn) -> Piece {
        if self.crosses == turn {
            Piece::Crosses
        } else {
            Piece::Naughts
        }
    }

    /// The game after `piece` is put on `position`: the cell is marked, the
    /// sums of the lines through it take the mark's value, and the cell
    /// leaves the free list.
    pub open spec fn apply(self, piece: Piece, position: int) -> GameView {
        let value = piece.spec_value();
        GameView {
            moves: self.moves.remove(self.moves.index_of(position as usize)),
            board: self.board.update(position, piece),
            row: self.row.update(position / 3, self.row[position / 3] + value),
            column: self.column.update(position % 3, self.column[position % 3] + value),
            diagonal: if on_diagonal(position) {
                self.diagonal + value
            } else {
                self.diagonal
            },
            cdiagonal: if on_cdiagonal(position) {
                self.cdiagonal + value
            } else {
                self.cdiagonal
            },
            ..self
        }
    }

    /// The game after the mark on `position` is taken back: the cell is
    /// empty, the sums of the lines through it give the mark's value back,
    /// and the cell returns to its place in the free list.
    pub open spec fn undo(self, position: int) -> GameView {
        let value = self.board[position].spec_value();
        GameView {
            moves: self.moves.insert(
                insertion_point(self.moves, position as usize),
                position as usize,
            ),
            board: self.board.update(position, Piece::Empty),
            row: self.row.update(position / 3, self.row[position / 3] - value),
            column: self.column.update(position % 3, self.column[position % 3] - value),
            diagonal: if on_diagonal(position) {
                self.diagonal - value
            } else {
                self.diagonal
            },
            cdiagonal: if on_cdiagonal(position) {
                self.cdiagonal - value
            } else {
                self.cdiagonal
            },
            ..self
        }
    }
}

/// An ascending list that lacks `position` has a place for it.
pub proof fn lemma_fits_somewhere(moves: Seq<usize>, position: usize, from: int) -> (at: int)
    requires
        forall|i: int, j: int| 0 <= i < j < moves.len() ==> moves[i] < moves[j],
        !moves.contains(position),
        0 <= from <= moves.len(),
        forall|i: int| 0 <= i < from ==> moves[i] < position,
    ensures
        fits_at(moves, position, at),
    decreases moves.len() - from,
{
    if from == moves.len() {
        from
    } else if moves[from] < position {
        lemma_fits_somewhere(moves, position, from + 1)
    } else {
        assert forall|i: int| from <= i < moves.len() implies position < moves[i] by {
            assert(moves[from] != position);
            if from < i {
                assert(moves[from] < moves[i]);
            }
        }
        from
    }
}

/// An ascending list has at most one place for `position`.
pub proof fn lemma_fits_once(moves: Seq<usize>, position: usize, a: int, b: int)
    requires
        fits_at(moves, position, a),
        fits_at(moves, position, b),
    ensures
        a == b,
{
    if a < b {
        assert(moves[a] < position);
    } else if b < a {
        assert(moves[b] < position);
    }
}

impl GameView {
    /// A legal `apply` keeps the caches in agreement with the cells.
    pub proof fn lemma_apply_wf(self, piece: Piece, position: int)
        requires
            self.wf(),
            0 <= position < 9,
            self.board[position] is Empty,
            piece !is Empty,
        ensures
            self.apply(piece, position).wf(),
    {
        lemma_update_sums(self.board, position, piece);
        lemma_free_cells_lists(self.board);
        assert(self.moves.contains(position as usize));
        lemma_free_cells_mark(self.board, self.moves.index_of(position as usize), piece);
    }

    /// A legal `undo` keeps the caches in agreement with the cells.
    pub proof fn lemma_undo_wf(self, position: int)
        requires
            self.wf(),
            0 <= position < 9,
            self.board[position] !is Empty,
        ensures
            self.undo(position).wf(),
    {
        lemma_update_sums(self.board, position, Piece::Empty);
        lemma_free_cells_lists(self.board);
        if self.moves.contains(position as usize) {
            let i = self.moves.index_of(position as usize);
            assert(self.board[self.moves[i] as int] is Empty);
        }
        lemma_fits_somewhere(self.moves, position as usize, 0);
        lemma_free_cells_clear(
            self.board,
            position,
            insertion_point(self.moves, position as usize),
        );
    }

    /// Taking back the move that was just made restores the game exactly:
    /// cells, line sums and free list.
    pub proof fn lemma_apply_undo(self, piece: Piece, position: int)
        requires
            self.wf(),
            0 <= position < 9,
            self.board[position] is Empty,
            piece !is Empty,
        ensures
            self.apply(piece, position).undo(position) == self,
    {
        let made = self.apply(piece, position);
        self.lemma_apply_wf(piece, position);
        made.lemma_undo_wf(position);
        let back = made.undo(position);
        assert(back.board =~= self.board);
        assert(back.row =~= self.row);
        assert(back.column =~= self.column);
        assert(back.moves == free_cells(back.board));
        assert(back =~= self);
    }
}

impl View for GameState {
    type V = GameView;

    closed spec fn view(&self) -> GameView {
        GameView {
            moves: self.moves@,
            board: self.board@,
            crosses: self.crosses,
            naughts: self.naughts,
            row: Seq::new(3, |r: int| self.state.row@[r] as int),
            column: Seq::new(3, |c: int| self.state.column@[c] as int),
            diagonal: self.state.diagonal as int,
            cdiagonal: self.state.cdiagonal as int,
            current_turn: self.current_turn,
        }
    }
}

/// Whom a line with the given sum belongs to.
fn owner_of(sum: isize) -> (piece: Piece)
    ensures
        piece == line_owner(sum as int),
{
    match sum {
        3 => Piece::Crosses,
        -3 => Piece::Naughts,
        _ => Piece::Empty,
    }
}

/// The game before the first move; `turn` plays the crosses and moves first.
pub fn init(turn: &Turn) -> (game: GameState)
    ensures
        game@ == GameView::initial(*turn),
        game.wf(),
{
    GameState::new(turn)
}

impl Clone for GameState {
    fn clone(&self) -> (copy: Self)
        ensures
            copy@ == self@,
    {
        let copy = GameState {
            moves: self.moves.clone(),
            board: self.board,
            crosses: self.crosses,
            naughts: self.naughts,
            state: self.state,
            current_turn: self.current_turn,
        };
        assert(copy.moves@ =~= self.moves@);
        copy
    }
}

impl GameState {
    /// The caches agree with the cells.
    pub open spec fn wf(&self) -> bool {
        self@.wf()
    }

    /// The game before the first move; `turn` plays the crosses and moves
    /// first.
    pub fn new(turn: &Turn) -> (game: GameState)
        ensures
            game@ == GameView::initial(*turn),
            game.wf(),
    {
        let game = GameState {
            moves: vec![0, 1, 2, 3, 4, 5, 6, 7, 8],
            board: [Piece::Empty; 9],
            crosses: *turn,
            naughts: turn.opponent(),
            state: BoardState { row: [0; 3], column: [0; 3], diagonal: 0, cdiagonal: 0 },
            current_turn: *turn,
        };
        proof {
            assert(game@.board =~= empty_grid());
            assert(game@.moves =~= Seq::new(9, |k: int| k as usize));
            assert(game@ =~= GameView::initial(*turn));
            lemma_empty_grid_free();
        }
        game
    }

    /// The mark that `turn` places: crosses for the side that was given to
    /// `new`, naughts for the other.
    pub fn get_piece(&self, turn: &Turn) -> (piece: Piece)
        ensures
            piece == self@.piece_of(*turn),
            piece !is Empty,
    {
        if self.crosses == *turn {
            Piece::Crosses
        } else {
            Piece::Naughts
        }
    }

    /// Puts the mark of `turn` on the free cell `position`.
    pub fn apply(&mut self, turn: &Turn, position: &usize) -> (after: &Self)
        requires
            old(self).wf(),
            *position < 9,
            old(self)@.board[*position as int] is Empty,
        ensures
            final(self)@ == old(self)@.apply(old(self)@.piece_of(*turn), *position as int),
            final(self).wf(),
            *after == *final(self),
    {
        let position: usize = *position;
        let piece = self.get_piece(turn);
        let value = piece.value();
        let row: usize = position / 3;
        let column: usize = position % 3;
        let ghost before = self@;
        proof {
            lemma_free_cells_lists(before.board);
            before.lemma_apply_wf(piece, position as int);
            assert(before.row[row as int] == row_sum(before.board, row as int));
            assert(before.column[column as int] == column_sum(before.board, column as int));
        }
        self.board[position] = piece;
        self.state.row[row] += value;
        self.state.column[column] += value;
        if position % 3 == position / 3 {
            self.state.diagonal += value;
        }
        if 2 - position % 3 == position / 3 {
            self.state.cdiagonal += value;
        }
        let mut at: usize = 0;
        while self.moves[at] != position
            invariant
                0 <= at < self.moves.len(),
                self.moves@.contains(position),
                forall|i: int| 0 <= i < at ==> self.moves@[i] != position,
            decreases self.moves.len() - at,
        {
            at += 1;
        }
        proof {
            assert(before.moves[at as int] == position);
            assert(before.moves.index_of(position) == at);
        }
        self.moves.remove(at);
        proof {
            let target = before.apply(piece, position as int);
            assert(self@.row =~= target.row);
            assert(self@.column =~= target.column);
            assert(self@.board =~= target.board);
            assert(self@.moves =~= target.moves);
            assert(self@ =~= target);
        }
        self
    }

    /// Takes the mark on `position` back.
    pub fn undo(&mut self, position: &usize) -> (after: &Self)
        requires
            old(self).wf(),
            *position < 9,
            old(self)@.board[*position as int] !is Empty,
        ensures
            final(self)@ == old(self)@.undo(*position as int),
            final(self).wf(),
            *after == *final(self),
    {
        let position: usize = *position;
        let piece = self.board[position];
        let value = piece.value();
        let row: usize = position / 3;
        let column: usize = position % 3;
        let ghost before = self@;
        proof {
            lemma_free_cells_lists(before.board);
            before.lemma_undo_wf(position as int);
            assert(before.row[row as int] == row_sum(before.board, row as int));
            assert(before.column[column as int] == column_sum(before.board, column as int));
        }
        self.board[position] = Piece::Empty;
        self.state.row[row] -= value;
        self.state.column[column] -= value;
        if position % 3 == position / 3 {
            self.state.diagonal -= value;
        }
        if 2 - position % 3 == position / 3 {
            self.state.cdiagonal -= value;
        }
        let mut at: usize = 0;
        while at < self.moves.len() && self.moves[at] < position
            invariant
                0 <= at <= self.moves.len(),
                forall|i: int| 0 <= i < at ==> self.moves@[i] < position,
            decreases self.moves.len() - at,
        {
            at += 1;
        }
        proof {
            assert forall|i: int| at <= i < before.moves.len() implies position
                < before.moves[i] by {
                assert(before.board[before.moves[i] as int] is Empty);
                if at < i {
                    assert(before.moves[at as int] < before.moves[i]);
                }
            }
            assert(fits_at(before.moves, position, at as int));
            lemma_fits_once(
                before.moves,
                position,
                at as int,
                insertion_point(before.moves, position),
            );
        }
        self.moves.insert(at, position);
        proof {
            let target = before.undo(position as int);
            assert(self@.row =~= target.row);
            assert(self@.column =~= target.column);
            assert(self@.board =~= target.board);
            assert(self@.moves =~= target.moves);
            assert(self@ =~= target);
        }
        self
    }

    /// The side that has completed a line, `Empty` while nobody has.  The
    /// rows are looked at first, then the columns, then the two diagonals,
    /// and the first completed line decides.
    pub fn winner(&self) -> (piece: Piece)
        requires
            self.wf(),
        ensures
            piece == winner_of(self@.board),
    {
        let ghost sums = line_sums(self@.board);
        let mut r: usize = 0;
        while r < 3
            invariant
                0 <= r <= 3,
                self.wf(),
                sums == line_sums(self@.board),
                forall|i: int| 0 <= i < r ==> line_owner(#[trigger] sums[i]) is Empty,
            decreases 3 - r,
        {
            let owner = owner_of(self.state.row[r]);
            proof {
                assert(self@.row[r as int] == row_sum(self@.board, r as int));
                lemma_first_owner_skip(sums, 0, r as int);
            }
            if owner != Piece::Empty {
                return owner;
            }
            r += 1;
        }
        let mut c: usize = 0;
        while c < 3
            invariant
                0 <= c <= 3,
                self.wf(),
                sums == line_sums(self@.board),
                forall|i: int| 0 <= i < 3 + c ==> line_owner(#[trigger] sums[i]) is Empty,
            decreases 3 - c,
        {
            let owner = owner_of(self.state.column[c]);
            proof {
                assert(self@.column[c as int] == column_sum(self@.board, c as int));
                lemma_first_owner_skip(sums, 0, 3 + c as int);
            }
            if owner != Piece::Empty {
                return owner;
            }
            c += 1;
        }
        let owner = owner_of(self.state.diagonal);
        proof {
            lemma_first_owner_skip(sums, 0, 6);
        }
        if owner != Piece::Empty {
            return owner;
        }
        let owner = owner_of(self.state.cdiagonal);
        proof {
            lemma_first_owner_skip(sums, 0, 7);
            if owner is Empty {
                lemma_first_owner_skip(sums, 0, 8);
            }
        }
        owner
    }

    /// The cached line sums.
    pub fn state(&self) -> (state: BoardState)
        ensures
            self@.row == Seq::new(3, |r: int| state.row@[r] as int),
            self@.column == Seq::new(3, |c: int| state.column@[c] as int),
            self@.diagonal == state.diagonal,
            self@.cdiagonal == state.cdiagonal,
    {
        self.state
    }

    /// The free cells, in ascending order.
    pub fn moves(&self) -> (moves: &Vec<usize>)
        ensures
            moves@ == self@.moves,
    {
        &self.moves
    }

    /// The nine cells, row by row.
    pub fn board(&self) -> (board: &[Piece; 9])
        ensures
            board@ == self@.board,
    {
        &self.board
    }

    /// The side that plays the crosses.
    pub fn crosses(&self) -> (side: Turn)
        ensures
            side == self@.crosses,
    {
        self.crosses
    }

    /// The side that plays the naughts.
    pub fn naughts(&self) -> (side: Turn)
        ensures
            side == self@.naughts,
    {
        self.naughts
    }

    /// The side recorded as next to move.
    pub fn current_turn(&self) -> (side: Turn)
        ensures
            side == self@.current_turn,
    {
        self.current_turn
    }

    /// Records which side moves next; the board is left as it is.
    pub fn set_current_turn(&mut self, turn: Turn)
        ensures
            final(self)@ == (GameView { current_turn: turn, ..old(self)@ }),
    {
        self.current_turn = turn;
    }

    /// Whether no cell is free; on a well formed game, whether all nine
    /// cells are marked.
    pub fn full(&self) -> (b: bool)
        ensures
            b == (self@.moves.len() == 0),
            self.wf() ==> b == (occupied(self@.board) == 9),
    {
        self.moves.len() == 0
    }
}

} // verus!
