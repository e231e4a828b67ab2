//! The fixed-point UCT scoring primitives.

use mcts::mcts::uct::{ilog2, isqrt, uct_le_exec, uct_score, UctScore};

#[test]
fn integer_square_roots() {
    assert_eq!(isqrt(0), 0);
    assert_eq!(isqrt(1), 1);
    assert_eq!(isqrt(3), 1);
    assert_eq!(isqrt(4), 2);
    assert_eq!(isqrt(15), 3);
    assert_eq!(isqrt(16), 4);
    assert_eq!(isqrt(999_999), 999);
    assert_eq!(isqrt(1_000_000), 1000);
    assert_eq!(isqrt(u64::MAX), 4_294_967_295);
}

#[test]
fn integer_base_two_logarithms() {
    assert_eq!(ilog2(1), 0);
    assert_eq!(ilog2(2), 1);
    assert_eq!(ilog2(3), 1);
    assert_eq!(ilog2(4), 2);
    assert_eq!(ilog2(1023), 9);
    assert_eq!(ilog2(1024), 10);
    assert_eq!(ilog2(u64::MAX), 63);
}

/// A never-visited child scores as infinity and outranks any visited
/// sibling, whatever the rewards.
#[test]
fn unvisited_child_outranks_any_visited_one() {
    assert_eq!(uct_score(0, 0, 5), UctScore::Infinite);
    let very_good = uct_score(2_000_000, 1, 5);
    assert!(matches!(very_good, UctScore::Finite(_)));
    assert!(uct_le_exec(very_good, UctScore::Infinite));
    assert!(!uct_le_exec(UctScore::Infinite, very_good));
}

/// Exact fixed-point values: with one parent visit the exploration
/// term vanishes, and the exploitation term is the shifted average
/// reward in 1/65536 units.
#[test]
fn exact_scores_for_tiny_trees() {
    // reward 0, 1 visit: (0 + 2_000_000) * 65536 / 2.
    assert_eq!(uct_score(0, 1, 1), UctScore::Finite(65_536_000_000));
    // reward 2 (a win), 1 visit: (2 + 2_000_000) * 65536 / 2.
    assert_eq!(uct_score(2, 1, 1), UctScore::Finite(65_536_065_536));
    // reward 1 (a draw), 1 visit: floor((1 + 2_000_000) * 65536 / 2).
    assert_eq!(uct_score(1, 1, 1), UctScore::Finite(65_536_032_768));
}

/// Exploration grows with the parent's visits and shrinks with the
/// child's.
#[test]
fn exploration_prefers_less_visited_children() {
    let fresh = uct_score(0, 1, 100);
    let worn = uct_score(0, 50, 100);
    assert!(uct_le_exec(worn, fresh));
    assert!(!uct_le_exec(fresh, worn));

    let small_parent = uct_score(0, 5, 10);
    let large_parent = uct_score(0, 5, 10_000);
    assert!(uct_le_exec(small_parent, large_parent));
}

/// Higher average reward means higher priority at equal visit counts.
#[test]
fn exploitation_prefers_higher_rewards() {
    let losing = uct_score(0, 10, 100);
    let winning = uct_score(20, 10, 100);
    assert!(uct_le_exec(losing, winning));
    assert!(!uct_le_exec(winning, losing));
    // Negative accumulated rewards (reward-bearing games) rank lower
    // still.
    let negative = uct_score(-20, 10, 100);
    assert!(uct_le_exec(negative, losing));
}
