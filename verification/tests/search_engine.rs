//! End-to-end properties of the Monte Carlo tree search engine.

use mcts::game::connect4::Connect4;
use mcts::game::{Game, GameResult, Player, TicTacToe};
use mcts::mcts::Mcts;

fn ttt_with_moves(moves: &[usize]) -> TicTacToe {
    let mut g = TicTacToe::default();
    for &m in moves {
        g.step(m).expect("legal move");
    }
    g
}

/// A terminal state has no legal actions and search returns `None`.
#[test]
fn search_on_terminal_state_returns_none() {
    let won = ttt_with_moves(&[0, 1, 4, 2, 8]);
    assert!(won.is_terminal());
    assert_eq!(won.allowed_actions(), Vec::<usize>::new());
    let mut agent: Mcts<TicTacToe> = Mcts::with_seed(200, 11);
    assert_eq!(agent.search(&won), None);
}

/// A zero iteration budget expands nothing and returns `None`.
#[test]
fn search_with_zero_iterations_returns_none() {
    let g = TicTacToe::default();
    let mut agent: Mcts<TicTacToe> = Mcts::with_seed(0, 11);
    assert_eq!(agent.search(&g), None);
    assert_eq!(agent.root_visit_count(), 0);
}

/// One iteration on a fresh board already yields a legal action.
#[test]
fn search_returns_a_legal_action_after_one_iteration() {
    let g = TicTacToe::default();
    let mut agent: Mcts<TicTacToe> = Mcts::with_seed(1, 3);
    let action = agent.search(&g).expect("non-terminal state with one iteration");
    assert!(g.allowed_actions().contains(&action));
}

/// With a fixed seed and budget, search is deterministic.
#[test]
fn search_is_deterministic_for_a_fixed_seed() {
    let g = ttt_with_moves(&[4, 0]);
    for seed in [1u64, 7, 42, 1234] {
        let mut first: Mcts<TicTacToe> = Mcts::with_seed(300, seed);
        let mut second: Mcts<TicTacToe> = Mcts::with_seed(300, seed);
        let a = first.search(&g);
        let b = second.search(&g);
        assert_eq!(a, b);
        // And again on the same agent: the tree is rebuilt, only the
        // generator state advanced, so the answer may differ, but a
        // re-seeded agent must reproduce the first answer.
        let mut third: Mcts<TicTacToe> = Mcts::with_seed(300, seed);
        assert_eq!(third.search(&g), a);
    }
}

/// After `N` iterations the root was visited exactly `N` times and its
/// children share at most `N` visits.
#[test]
fn node_accounting_after_a_fixed_budget() {
    let g = TicTacToe::default();
    let mut agent: Mcts<TicTacToe> = Mcts::with_seed(57, 9);
    agent.search(&g).unwrap();
    assert_eq!(agent.root_visit_count(), 57);
    let child_visits = agent.root_child_visits();
    let total: u128 = child_visits.iter().map(|&v| v as u128).sum();
    assert!(total <= 57);
    // Every child of a fresh board gets expanded within 57 iterations.
    assert_eq!(child_visits.len(), 9);
}

/// Backpropagated increments, in half-win units: a draw adds exactly 1
/// to the root.
#[test]
fn draw_outcome_backpropagates_half_a_win() {
    // One empty square left; filling it draws the game.
    let g = ttt_with_moves(&[0, 2, 1, 3, 5, 4, 6, 7]);
    assert!(!g.is_terminal());
    let mut agent: Mcts<TicTacToe> = Mcts::with_seed(1, 5);
    assert_eq!(agent.search(&g), Some(8));
    assert_eq!(agent.root_visit_count(), 1);
    assert_eq!(agent.root_reward_total(), 1);
}

/// Backpropagated increments: a win for the player to move at the root
/// adds exactly 0 at the root (whose actor is the opponent).
#[test]
fn win_for_mover_backpropagates_zero_at_the_root() {
    // One empty square left; filling it wins for X, the mover.
    let g = ttt_with_moves(&[0, 2, 1, 3, 4, 6, 5, 7]);
    assert!(!g.is_terminal());
    assert_eq!(g.current_player(), Player::X);
    assert_eq!(g.allowed_actions(), vec![8]);
    let mut agent: Mcts<TicTacToe> = Mcts::with_seed(1, 5);
    assert_eq!(agent.search(&g), Some(8));
    assert_eq!(agent.root_visit_count(), 1);
    // Root actor is O; the X win credits the root with 0.
    assert_eq!(agent.root_reward_total(), 0);
}

/// A state with exactly one legal action returns that action for any
/// budget, including a single iteration.
#[test]
fn lone_legal_action_is_always_returned() {
    let g = ttt_with_moves(&[0, 2, 1, 3, 5, 4, 6, 7]);
    assert_eq!(g.allowed_actions(), vec![8]);
    for iters in [1u32, 2, 10, 500] {
        let mut agent: Mcts<TicTacToe> = Mcts::with_seed(iters, 77);
        assert_eq!(agent.search(&g), Some(8));
    }
}

/// With a large budget, search finds an immediate tic-tac-toe win.
#[test]
fn search_finds_the_winning_move() {
    // X holds 0 and 4; 8 completes the diagonal.
    let g = ttt_with_moves(&[0, 1, 4, 3]);
    assert_eq!(g.current_player(), Player::X);
    let mut found = 0;
    let seeds = [1u64, 2, 3, 4, 5, 6, 7, 8, 9, 10];
    for seed in seeds {
        let mut agent: Mcts<TicTacToe> = Mcts::with_seed(2000, seed);
        if agent.search(&g) == Some(8) {
            found += 1;
        }
    }
    assert!(found >= 9, "winning move found only {found} times in 10");
}

/// One move from a forced draw, search picks the move that draws and
/// never one that lets the opponent win.
#[test]
fn search_avoids_the_losing_move_in_a_drawn_endgame() {
    // X: 0 1 5, O: 2 3 4, X to move; 6 blocks O's diagonal and forces
    // a draw, while 7 or 8 lose to O playing 6.
    let g = ttt_with_moves(&[0, 2, 1, 3, 5, 4]);
    assert_eq!(g.current_player(), Player::X);
    assert_eq!(g.allowed_actions(), vec![6, 7, 8]);
    let mut agent: Mcts<TicTacToe> = Mcts::with_seed(3000, 21);
    let action = agent.search(&g).unwrap();
    assert_eq!(action, 6);
    // Reference playout: after X plays 6, every completion is a draw.
    let mut after = g.duplicate();
    after.step(6).unwrap();
    for o_reply in after.allowed_actions() {
        let mut line = after.duplicate();
        line.step(o_reply).unwrap();
        if let Some(outcome) = line.result() {
            assert_eq!(outcome, GameResult::Draw);
            continue;
        }
        let last = line.allowed_actions();
        assert_eq!(last.len(), 1);
        line.step(last[0]).unwrap();
        assert_eq!(line.result(), Some(GameResult::Draw));
    }
}

/// The engine plays connect four too: it finds the column completing
/// four in a row.
#[test]
fn search_finds_a_connect4_win() {
    // X has the bottom row of columns 0 through 2; column 3 wins.
    let g = {
        let mut g = Connect4::default();
        for &m in &[0usize, 6, 1, 6, 2, 5] {
            g.step(m).unwrap();
        }
        g
    };
    assert_eq!(g.current_player(), Player::X);
    let mut found = 0;
    for seed in [1u64, 2, 3, 4, 5] {
        let mut agent: Mcts<Connect4> = Mcts::with_seed(2500, seed);
        if agent.search(&g) == Some(3) {
            found += 1;
        }
    }
    assert!(found >= 4, "winning column found only {found} times in 5");
}

/// Two agents can play a full game against each other: every move the
/// engine returns is legal, and the game reaches a verdict.
#[test]
fn self_play_reaches_a_verdict() {
    let mut game = TicTacToe::default();
    let mut x_agent: Mcts<TicTacToe> = Mcts::with_seed(400, 5);
    let mut o_agent: Mcts<TicTacToe> = Mcts::with_seed(400, 6);
    let mut moves = 0;
    while game.result().is_none() {
        let agent = if game.current_player() == Player::X {
            &mut x_agent
        } else {
            &mut o_agent
        };
        let action = agent.search(&game).expect("non-terminal game");
        assert!(game.allowed_actions().contains(&action));
        game.step(action).unwrap();
        moves += 1;
        assert!(moves <= 9);
    }
    assert!(game.result().is_some());
}
