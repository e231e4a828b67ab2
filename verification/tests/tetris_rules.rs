//! Behavior of the tetris rule engine and the engine searching it.

use mcts::game::tetris::{Action, Tetris};
use mcts::game::{Game, GameResult, Player};
use mcts::mcts::Mcts;

#[test]
fn fresh_episode_is_playable() {
    let g = Tetris::with_seed(7);
    assert_eq!(g.result(), None);
    assert_eq!(g.current_player(), Player::X);
    assert_eq!(g.current_reward(), 0);
    assert_eq!(g.current_score(), 0);
    let actions = g.allowed_actions();
    // Doing nothing is always legal; on an empty board the piece can
    // also drop.
    assert!(actions.contains(&Action::NoOp.index()));
    assert!(actions.contains(&Action::SoftDrop.index()));
    assert!(actions.contains(&Action::HardDrop.index()));
    assert!(actions.contains(&Action::Hold.index()));
}

#[test]
fn action_indices_round_trip() {
    for i in 0..7 {
        assert_eq!(Action::from_index(i).index(), i);
    }
    assert_eq!(Action::from_index(99), Action::NoOp);
}

#[test]
fn illegal_actions_are_rejected_without_effect() {
    let mut g = Tetris::with_seed(3);
    let before = g.allowed_actions();
    assert_eq!(Game::step(&mut g, 9), Err("Illegal action"));
    assert_eq!(g.allowed_actions(), before);
    assert_eq!(g.result(), None);
}

#[test]
fn stepping_is_deterministic_for_a_seed() {
    let mut a = Tetris::with_seed(42);
    let mut b = Tetris::with_seed(42);
    for _ in 0..300 {
        let acts = a.allowed_actions();
        assert_eq!(acts, b.allowed_actions());
        assert_eq!(a.result(), b.result());
        assert_eq!(a.current_reward(), b.current_reward());
        if a.result().is_some() {
            break;
        }
        let act = acts[acts.len() - 1];
        assert_eq!(Game::step(&mut a, act), Ok(()));
        assert_eq!(Game::step(&mut b, act), Ok(()));
    }
}

#[test]
fn idle_play_ends_the_episode() {
    let mut g = Tetris::with_seed(11);
    let mut steps = 0u32;
    while g.result().is_none() {
        Game::step(&mut g, Action::NoOp.index()).unwrap();
        steps += 1;
        assert!(steps <= 11_000, "episode never ended");
    }
    assert!(matches!(g.result(), Some(GameResult::End(_))));
    assert_eq!(g.allowed_actions(), Vec::<usize>::new());
    assert_eq!(Game::step(&mut g, 0), Err("Game already finished"));
}

#[test]
fn reset_starts_a_new_episode() {
    let mut g = Tetris::with_seed(11);
    while g.result().is_none() {
        Game::step(&mut g, Action::NoOp.index()).unwrap();
    }
    g.reset();
    assert_eq!(g.result(), None);
    assert_eq!(g.current_score(), 0);
    assert!(g.allowed_actions().contains(&0));
}

#[test]
fn hard_drop_accrues_reward() {
    let mut g = Tetris::with_seed(5);
    assert!(g.allowed_actions().contains(&Action::HardDrop.index()));
    assert_eq!(Game::step(&mut g, Action::HardDrop.index()), Ok(()));
    // Each fallen row of a hard drop is worth 2 centi-units.
    assert!(g.current_reward() > 0);
    assert_eq!(g.current_reward() % 2, 0);
}

#[test]
fn search_returns_a_legal_tetris_action() {
    let g = Tetris::with_seed(1);
    let legal = g.allowed_actions();
    let mut agent: Mcts<Tetris> = Mcts::with_seed(30, 8);
    let action = agent.search(&g).expect("fresh episode is not terminal");
    assert!(legal.contains(&action));
    assert_eq!(agent.root_visit_count(), 30);
    let child_visits = agent.root_child_visits();
    let total: u128 = child_visits.iter().map(|&v| v as u128).sum();
    assert!(total <= 30);
}

#[test]
fn search_on_finished_episode_returns_none() {
    let mut g = Tetris::with_seed(11);
    while g.result().is_none() {
        Game::step(&mut g, Action::NoOp.index()).unwrap();
    }
    let mut agent: Mcts<Tetris> = Mcts::with_seed(40, 2);
    assert_eq!(agent.search(&g), None);
}
