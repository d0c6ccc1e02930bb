use tictactoe::{init, BoardState, GameState, Piece, Turn};

fn zero_state() -> BoardState {
    BoardState { row: [0, 0, 0], column: [0, 0, 0], diagonal: 0, cdiagonal: 0 }
}

/// Plays the cells in order, the given side first, sides alternating.
fn play(first: Turn, cells: &[usize]) -> GameState {
    let mut game = GameState::new(&first);
    let mut side = first;
    for cell in cells {
        game.apply(&side, cell);
        side = side.opponent();
    }
    game
}

#[test]
fn new_game_is_empty() {
    let game = GameState::new(&Turn::Player);
    assert_eq!(game.board(), &[Piece::Empty; 9]);
    assert_eq!(game.moves(), &vec![0, 1, 2, 3, 4, 5, 6, 7, 8]);
    assert_eq!(game.state(), zero_state());
    assert_eq!(game.crosses(), Turn::Player);
    assert_eq!(game.naughts(), Turn::Computer);
    assert_eq!(game.current_turn(), Turn::Player);
    assert!(!game.full());
    assert_eq!(game.winner(), Piece::Empty);
}

#[test]
fn init_gives_the_first_side_the_crosses() {
    let game = init(&Turn::Computer);
    assert_eq!(game.crosses(), Turn::Computer);
    assert_eq!(game.naughts(), Turn::Player);
    assert_eq!(game.current_turn(), Turn::Computer);
    assert_eq!(game.moves().len(), 9);
}

#[test]
fn opponent_swaps_the_sides() {
    assert_eq!(Turn::Player.opponent(), Turn::Computer);
    assert_eq!(Turn::Computer.opponent(), Turn::Player);
}

#[test]
fn piece_values() {
    assert_eq!(Piece::Crosses.value(), 1);
    assert_eq!(Piece::Naughts.value(), -1);
    assert_eq!(Piece::Empty.value(), 0);
}

#[test]
fn get_piece_follows_the_first_side() {
    let game = GameState::new(&Turn::Player);
    assert_eq!(game.get_piece(&Turn::Player), Piece::Crosses);
    assert_eq!(game.get_piece(&Turn::Computer), Piece::Naughts);
    let game = GameState::new(&Turn::Computer);
    assert_eq!(game.get_piece(&Turn::Computer), Piece::Crosses);
    assert_eq!(game.get_piece(&Turn::Player), Piece::Naughts);
}

#[test]
fn set_current_turn_changes_nothing_else() {
    let mut game = play(Turn::Player, &[4, 0]);
    let board = *game.board();
    let state = game.state();
    let moves = game.moves().clone();
    game.set_current_turn(Turn::Computer);
    assert_eq!(game.current_turn(), Turn::Computer);
    assert_eq!(game.board(), &board);
    assert_eq!(game.state(), state);
    assert_eq!(game.moves(), &moves);
    assert_eq!(game.crosses(), Turn::Player);
}

#[test]
fn apply_marks_the_corner() {
    let mut game = GameState::new(&Turn::Player);
    game.apply(&Turn::Player, &0);
    assert_eq!(game.board()[0], Piece::Crosses);
    assert_eq!(
        game.state(),
        BoardState { row: [1, 0, 0], column: [1, 0, 0], diagonal: 1, cdiagonal: 0 }
    );
    assert_eq!(game.moves(), &vec![1, 2, 3, 4, 5, 6, 7, 8]);
}

#[test]
fn apply_marks_the_centre_on_both_diagonals() {
    let mut game = GameState::new(&Turn::Player);
    game.apply(&Turn::Computer, &4);
    assert_eq!(game.board()[4], Piece::Naughts);
    assert_eq!(
        game.state(),
        BoardState { row: [0, -1, 0], column: [0, -1, 0], diagonal: -1, cdiagonal: -1 }
    );
    assert_eq!(game.moves(), &vec![0, 1, 2, 3, 5, 6, 7, 8]);
}

#[test]
fn apply_marks_the_counter_diagonal_only() {
    let mut game = GameState::new(&Turn::Player);
    game.apply(&Turn::Player, &2);
    assert_eq!(
        game.state(),
        BoardState { row: [1, 0, 0], column: [0, 0, 1], diagonal: 0, cdiagonal: 1 }
    );
    game.apply(&Turn::Computer, &6);
    assert_eq!(
        game.state(),
        BoardState { row: [1, 0, -1], column: [-1, 0, 1], diagonal: 0, cdiagonal: 0 }
    );
}

#[test]
fn apply_off_the_diagonals() {
    let mut game = GameState::new(&Turn::Player);
    game.apply(&Turn::Player, &5);
    assert_eq!(
        game.state(),
        BoardState { row: [0, 1, 0], column: [0, 0, 1], diagonal: 0, cdiagonal: 0 }
    );
    assert_eq!(game.moves(), &vec![0, 1, 2, 3, 4, 6, 7, 8]);
}

#[test]
fn apply_returns_the_game() {
    let mut game = GameState::new(&Turn::Player);
    let after = game.apply(&Turn::Player, &8);
    assert_eq!(after.board()[8], Piece::Crosses);
    assert_eq!(after.moves().len(), 8);
}

#[test]
fn undo_returns_the_game() {
    let mut game = play(Turn::Player, &[8]);
    let after = game.undo(&8);
    assert_eq!(after.board()[8], Piece::Empty);
    assert_eq!(after.moves().len(), 9);
}

#[test]
fn sums_follow_a_sequence_of_moves() {
    let game = play(Turn::Player, &[0, 4, 8, 2, 6]);
    assert_eq!(
        game.board(),
        &[
            Piece::Crosses,
            Piece::Empty,
            Piece::Naughts,
            Piece::Empty,
            Piece::Naughts,
            Piece::Empty,
            Piece::Crosses,
            Piece::Empty,
            Piece::Crosses,
        ]
    );
    assert_eq!(
        game.state(),
        BoardState { row: [0, -1, 2], column: [2, -1, 0], diagonal: 1, cdiagonal: -1 }
    );
    assert_eq!(game.moves(), &vec![1, 3, 5, 7]);
}

#[test]
fn undo_restores_every_cell_exactly() {
    for cell in 0..9usize {
        for side in [Turn::Player, Turn::Computer] {
            let mut game = play(Turn::Player, &[(cell + 1) % 9, (cell + 5) % 9]);
            let board = *game.board();
            let state = game.state();
            let moves = game.moves().clone();
            game.apply(&side, &cell);
            assert_ne!(game.board(), &board);
            game.undo(&cell);
            assert_eq!(game.board(), &board);
            assert_eq!(game.state(), state);
            assert_eq!(game.moves(), &moves);
        }
    }
}

#[test]
fn undo_puts_the_cell_back_in_ascending_order() {
    let mut game = play(Turn::Player, &[3, 0, 7]);
    assert_eq!(game.moves(), &vec![1, 2, 4, 5, 6, 8]);
    game.undo(&3);
    assert_eq!(game.moves(), &vec![1, 2, 3, 4, 5, 6, 8]);
    game.undo(&0);
    assert_eq!(game.moves(), &vec![0, 1, 2, 3, 4, 5, 6, 8]);
    game.undo(&7);
    assert_eq!(game.moves(), &vec![0, 1, 2, 3, 4, 5, 6, 7, 8]);
    assert_eq!(game.state(), zero_state());
}

#[test]
fn undo_reverses_the_sums_of_a_naught() {
    let mut game = play(Turn::Player, &[0, 4]);
    game.undo(&4);
    assert_eq!(
        game.state(),
        BoardState { row: [1, 0, 0], column: [1, 0, 0], diagonal: 1, cdiagonal: 0 }
    );
    assert_eq!(game.board()[4], Piece::Empty);
}

#[test]
fn winner_on_every_line_for_both_sides() {
    let lines: [[usize; 3]; 8] = [
        [0, 1, 2],
        [3, 4, 5],
        [6, 7, 8],
        [0, 3, 6],
        [1, 4, 7],
        [2, 5, 8],
        [0, 4, 8],
        [2, 4, 6],
    ];
    for line in lines {
        for (side, piece) in [(Turn::Player, Piece::Crosses), (Turn::Computer, Piece::Naughts)] {
            let mut game = GameState::new(&Turn::Player);
            game.apply(&side, &line[0]);
            assert_eq!(game.winner(), Piece::Empty);
            game.apply(&side, &line[1]);
            assert_eq!(game.winner(), Piece::Empty);
            game.apply(&side, &line[2]);
            assert_eq!(game.winner(), piece);
        }
    }
}

#[test]
fn winner_needs_three_of_one_side() {
    let game = play(Turn::Player, &[0, 1, 2]);
    assert_eq!(game.state().row[0], 1);
    assert_eq!(game.winner(), Piece::Empty);
}

#[test]
fn winner_takes_the_first_line_in_scan_order() {
    let mut game = GameState::new(&Turn::Player);
    for cell in [3, 4, 5] {
        game.apply(&Turn::Player, &cell);
    }
    for cell in [0, 1, 2] {
        game.apply(&Turn::Computer, &cell);
    }
    assert_eq!(game.winner(), Piece::Naughts);

    let mut game = GameState::new(&Turn::Player);
    for cell in [1, 4, 7] {
        game.apply(&Turn::Computer, &cell);
    }
    for cell in [0, 3, 6] {
        game.apply(&Turn::Player, &cell);
    }
    assert_eq!(game.winner(), Piece::Crosses);
}

#[test]
fn game_as_played_has_one_winner() {
    let mut game = GameState::new(&Turn::Player);
    let mut side = Turn::Player;
    for cell in [4usize, 0, 2, 6, 3, 5, 1, 7, 8] {
        assert_eq!(game.winner(), Piece::Empty);
        game.apply(&side, &cell);
        side = side.opponent();
    }
    assert_eq!(game.winner(), Piece::Empty);
    assert!(game.full());

    let game = play(Turn::Computer, &[0, 3, 1, 4, 2]);
    assert_eq!(game.winner(), Piece::Crosses);
    assert_eq!(game.state().row, [3, -2, 0]);
}

#[test]
fn full_after_nine_moves_net_of_undos() {
    let order = [4usize, 0, 2, 6, 3, 5, 1, 7, 8];
    let mut game = GameState::new(&Turn::Player);
    let mut side = Turn::Player;
    for (made, cell) in order.iter().enumerate() {
        assert!(!game.full());
        assert_eq!(game.moves().len(), 9 - made);
        game.apply(&side, cell);
        side = side.opponent();
    }
    assert!(game.full());
    assert!(game.moves().is_empty());
    game.undo(&8);
    assert!(!game.full());
    game.undo(&7);
    assert!(!game.full());
    game.apply(&Turn::Computer, &7);
    assert!(!game.full());
    game.apply(&Turn::Player, &8);
    assert!(game.full());
}

#[test]
fn clone_is_independent() {
    let game = play(Turn::Player, &[4, 0]);
    let mut copy = game.clone();
    copy.apply(&Turn::Player, &8);
    assert_eq!(game.board()[8], Piece::Empty);
    assert_eq!(game.moves(), &vec![1, 2, 3, 5, 6, 7, 8]);
    assert_eq!(copy.board()[8], Piece::Crosses);
    assert_eq!(copy.moves(), &vec![1, 2, 3, 5, 6, 7]);
}
