//! Behavior of the tic-tac-toe and connect-four rule engines.

use mcts::game::connect4::Connect4;
use mcts::game::{Cell, Game, GameResult, Player, TicTacToe};

fn ttt_with_moves(moves: &[usize]) -> TicTacToe {
    let mut g = TicTacToe::default();
    for &m in moves {
        g.step(m).expect("legal move");
    }
    g
}

#[test]
fn opponent_swaps_players() {
    assert_eq!(Player::X.opponent(), Player::O);
    assert_eq!(Player::O.opponent(), Player::X);
    assert_eq!(Player::X.opponent().opponent(), Player::X);
}

#[test]
fn fresh_tictactoe_board() {
    let g = TicTacToe::default();
    assert!(!g.is_terminal());
    assert_eq!(g.result(), None);
    assert_eq!(g.current_player(), Player::X);
    assert_eq!(g.current_reward(), 0);
    assert_eq!(g.allowed_actions(), vec![0, 1, 2, 3, 4, 5, 6, 7, 8]);
    for i in 0..9 {
        assert_eq!(g.cell(i), Cell::Empty);
    }
}

#[test]
fn tictactoe_step_alternates_players_and_fills_cells() {
    let mut g = TicTacToe::default();
    g.step(4).unwrap();
    assert_eq!(g.cell(4), Cell::Occupied(Player::X));
    assert_eq!(g.current_player(), Player::O);
    g.step(0).unwrap();
    assert_eq!(g.cell(0), Cell::Occupied(Player::O));
    assert_eq!(g.current_player(), Player::X);
    assert_eq!(g.allowed_actions(), vec![1, 2, 3, 5, 6, 7, 8]);
}

#[test]
fn tictactoe_rejects_illegal_moves() {
    let mut g = TicTacToe::default();
    assert_eq!(g.step(9), Err("Position out of bounds"));
    g.step(4).unwrap();
    assert_eq!(g.step(4), Err("Cell already occupied"));
    // X: 0 4 8 wins the main diagonal.
    let mut won = ttt_with_moves(&[0, 1, 4, 2, 8]);
    assert_eq!(won.step(5), Err("Game already finished"));
}

#[test]
fn tictactoe_detects_row_column_and_diagonal_wins() {
    // X takes the top row.
    let g = ttt_with_moves(&[0, 3, 1, 4, 2]);
    assert!(g.is_terminal());
    assert_eq!(g.result(), Some(GameResult::Win(Player::X)));
    // O takes the left column.
    let g = ttt_with_moves(&[1, 0, 2, 3, 4, 6]);
    assert_eq!(g.result(), Some(GameResult::Win(Player::O)));
    // X takes the anti-diagonal.
    let g = ttt_with_moves(&[2, 0, 4, 1, 6]);
    assert_eq!(g.result(), Some(GameResult::Win(Player::X)));
}

#[test]
fn tictactoe_detects_draw_on_full_board() {
    // X X O / O O X / X O X with no three in a line.
    let g = ttt_with_moves(&[0, 2, 1, 3, 5, 4, 6, 7, 8]);
    assert!(g.is_terminal());
    assert_eq!(g.result(), Some(GameResult::Draw));
    assert_eq!(g.allowed_actions(), Vec::<usize>::new());
}

#[test]
fn tictactoe_terminal_state_has_no_actions() {
    let g = ttt_with_moves(&[0, 1, 4, 2, 8]);
    assert!(g.is_terminal());
    assert_eq!(g.allowed_actions(), Vec::<usize>::new());
}

#[test]
fn tictactoe_duplicate_is_independent() {
    let mut g = ttt_with_moves(&[0, 1]);
    let d = g.duplicate();
    assert_eq!(d.allowed_actions(), g.allowed_actions());
    assert_eq!(d.current_player(), g.current_player());
    assert_eq!(d.result(), g.result());
    // Stepping the original leaves the copy untouched.
    g.step(4).unwrap();
    assert_eq!(d.cell(4), Cell::Empty);
    assert_eq!(g.cell(4), Cell::Occupied(Player::X));
}

fn c4_with_moves(moves: &[usize]) -> Connect4 {
    let mut g = Connect4::default();
    for &m in moves {
        g.step(m).expect("legal move");
    }
    g
}

#[test]
fn fresh_connect4_board() {
    let g = Connect4::default();
    assert!(!g.is_terminal());
    assert_eq!(g.result(), None);
    assert_eq!(g.current_player(), Player::X);
    assert_eq!(g.current_reward(), 0);
    assert_eq!(g.allowed_actions(), vec![0, 1, 2, 3, 4, 5, 6]);
}

#[test]
fn connect4_pieces_stack_from_the_bottom() {
    let g = c4_with_moves(&[3, 3, 3]);
    assert_eq!(g.cell(5, 3), Cell::Occupied(Player::X));
    assert_eq!(g.cell(4, 3), Cell::Occupied(Player::O));
    assert_eq!(g.cell(3, 3), Cell::Occupied(Player::X));
    assert_eq!(g.cell(2, 3), Cell::Empty);
    assert_eq!(g.current_player(), Player::O);
}

#[test]
fn connect4_rejects_illegal_moves() {
    let mut g = Connect4::default();
    assert_eq!(g.step(7), Err("Column out of bounds"));
    // Fill column 2 with six pieces.
    let mut g = c4_with_moves(&[2, 2, 2, 2, 2, 2]);
    assert_eq!(g.step(2), Err("Column is full"));
    assert_eq!(g.allowed_actions(), vec![0, 1, 3, 4, 5, 6]);
}

#[test]
fn connect4_detects_vertical_win() {
    let g = c4_with_moves(&[0, 1, 0, 1, 0, 1, 0]);
    assert!(g.is_terminal());
    assert_eq!(g.result(), Some(GameResult::Win(Player::X)));
    assert_eq!(g.allowed_actions(), Vec::<usize>::new());
}

#[test]
fn connect4_detects_horizontal_win() {
    let g = c4_with_moves(&[0, 0, 1, 1, 2, 2, 3]);
    assert!(g.is_terminal());
    assert_eq!(g.result(), Some(GameResult::Win(Player::X)));
}

#[test]
fn connect4_detects_diagonal_win() {
    // X builds a rising diagonal on columns 0 through 3.
    let g = c4_with_moves(&[0, 1, 1, 2, 2, 3, 2, 3, 3, 6, 3]);
    assert!(g.is_terminal());
    assert_eq!(g.result(), Some(GameResult::Win(Player::X)));
}

#[test]
fn connect4_terminal_game_rejects_moves() {
    let mut g = c4_with_moves(&[0, 1, 0, 1, 0, 1, 0]);
    assert_eq!(g.step(3), Err("Game already finished"));
}

#[test]
fn connect4_duplicate_is_independent() {
    let mut g = c4_with_moves(&[3, 4]);
    let d = g.duplicate();
    g.step(3).unwrap();
    assert_eq!(d.cell(4, 3), Cell::Empty);
    assert_eq!(g.cell(4, 3), Cell::Occupied(Player::X));
}
