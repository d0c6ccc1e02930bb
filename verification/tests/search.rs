use tictactoe::board::NO_MOVE;
use tictactoe::{GameState, Piece, Root, Turn};

/// A game in which the player holds the crosses, with the given cells marked.
fn position(crosses: &[usize], naughts: &[usize]) -> GameState {
    let mut game = GameState::new(&Turn::Player);
    for cell in crosses {
        game.apply(&Turn::Player, cell);
    }
    for cell in naughts {
        game.apply(&Turn::Computer, cell);
    }
    game
}

#[test]
fn empty_board_is_a_draw_for_crosses() {
    let game = GameState::new(&Turn::Player);
    let root = game.minimax(true);
    assert_eq!(root.score, 0);
    assert_eq!(root.index, 0);
}

#[test]
fn empty_board_is_a_draw_for_naughts() {
    let game = GameState::new(&Turn::Player);
    let root = game.minimax(false);
    assert_eq!(root.score, 0);
    assert_eq!(root.index, 0);
}

#[test]
fn crosses_complete_the_top_row() {
    let game = position(&[0, 1], &[3, 4]);
    assert_eq!(game.minimax(true), Root { score: 1, index: 2 });
}

#[test]
fn naughts_take_the_earliest_winning_move() {
    let game = position(&[0, 1], &[3, 4]);
    assert_eq!(game.minimax(false), Root { score: -1, index: 2 });
}

#[test]
fn naughts_complete_the_middle_row() {
    let game = position(&[0, 2, 7], &[3, 4]);
    assert_eq!(game.minimax(false), Root { score: -1, index: 5 });
}

#[test]
fn full_board_without_winner_is_a_draw_without_move() {
    let game = position(&[4, 2, 3, 1, 8], &[0, 6, 5, 7]);
    assert!(game.full());
    assert_eq!(game.winner(), Piece::Empty);
    assert_eq!(game.minimax(true), Root { score: 0, index: NO_MOVE });
    assert_eq!(game.minimax(false), Root { score: 0, index: NO_MOVE });
    assert_eq!(NO_MOVE, 9);
}

#[test]
fn last_move_that_completes_nothing_is_a_draw() {
    let game = position(&[4, 2, 3, 1], &[0, 6, 5, 7]);
    assert_eq!(game.winner(), Piece::Empty);
    assert_eq!(game.moves(), &vec![8]);
    assert_eq!(game.minimax(true), Root { score: 0, index: 8 });
}

#[test]
fn last_move_that_completes_a_line_wins() {
    let game = position(&[0, 2, 4, 7], &[1, 3, 5, 6]);
    assert_eq!(game.winner(), Piece::Empty);
    assert_eq!(game.moves(), &vec![8]);
    assert_eq!(game.minimax(true), Root { score: 1, index: 8 });
    assert_eq!(game.minimax(false), Root { score: 0, index: 8 });
}

#[test]
fn won_game_has_no_move() {
    let game = position(&[0, 1, 2], &[3, 4]);
    assert_eq!(game.minimax(false), Root { score: 1, index: NO_MOVE });
    assert_eq!(game.minimax(true), Root { score: 1, index: NO_MOVE });
    let game = position(&[0, 1, 8], &[3, 4, 5]);
    assert_eq!(game.minimax(true), Root { score: -1, index: NO_MOVE });
}

#[test]
fn crosses_block_a_threat() {
    let game = position(&[0], &[3, 4]);
    assert_eq!(game.minimax(true), Root { score: 0, index: 5 });
}

#[test]
fn naughts_cannot_stop_a_fork() {
    let game = position(&[0, 2, 8], &[4, 6]);
    assert_eq!(game.minimax(false), Root { score: 1, index: 1 });
}

#[test]
fn earliest_of_equal_moves_is_chosen() {
    let game = position(&[0, 1, 3], &[4, 8]);
    assert_eq!(game.minimax(true), Root { score: 1, index: 2 });
    let game = position(&[4, 8], &[0, 1, 3]);
    assert_eq!(game.minimax(false), Root { score: -1, index: 2 });
}

#[test]
fn minimax_leaves_the_game_alone() {
    let game = position(&[0], &[4]);
    let board = *game.board();
    let state = game.state();
    let moves = game.moves().clone();
    game.minimax(true);
    assert_eq!(game.board(), &board);
    assert_eq!(game.state(), state);
    assert_eq!(game.moves(), &moves);
}

#[test]
fn search_hands_the_board_back() {
    let mut game = position(&[0, 8], &[4]);
    let board = *game.board();
    let state = game.state();
    let moves = game.moves().clone();
    let found = game.search(false);
    assert_eq!(game.board(), &board);
    assert_eq!(game.state(), state);
    assert_eq!(game.moves(), &moves);
    assert_eq!(found, game.minimax(false));
}

#[test]
fn values_stay_in_range_and_moves_are_free() {
    let openings: [(&[usize], &[usize]); 5] =
        [(&[4], &[]), (&[0], &[4]), (&[0, 8], &[4]), (&[1, 3], &[0, 4]), (&[2, 6, 7], &[4, 5])];
    for (crosses, naughts) in openings {
        let game = position(crosses, naughts);
        for is_max in [true, false] {
            let root = game.minimax(is_max);
            assert!(root.score >= -1 && root.score <= 1);
            assert!(game.moves().contains(&root.index));
        }
    }
}

#[test]
fn sides_do_not_change_the_value() {
    let mut game = GameState::new(&Turn::Computer);
    game.apply(&Turn::Computer, &0);
    game.apply(&Turn::Computer, &1);
    game.apply(&Turn::Player, &3);
    game.apply(&Turn::Player, &4);
    assert_eq!(game.board()[0], Piece::Crosses);
    assert_eq!(game.board()[3], Piece::Naughts);
    assert_eq!(game.minimax(true), Root { score: 1, index: 2 });
}

#[test]
fn perfect_play_from_the_start_ends_in_a_draw() {
    let mut game = GameState::new(&Turn::Player);
    let mut side = Turn::Player;
    let mut is_max = true;
    while !game.full() && game.winner() == Piece::Empty {
        let root = game.minimax(is_max);
        assert_eq!(root.score, 0);
        game.apply(&side, &root.index);
        side = side.opponent();
        is_max = !is_max;
    }
    assert!(game.full());
    assert_eq!(game.winner(), Piece::Empty);
}
