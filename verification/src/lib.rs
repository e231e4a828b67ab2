//! A Monte Carlo tree search engine for turn-based, perfect-information
//! games, verified with Verus.
//!
//! The engine in [`mcts`] is generic over any game implementing the
//! capability contract [`game::Game`]: it reports its legal actions,
//! the player to move, its terminal outcome, and applies actions.  Its
//! contract proves that a search runs exactly its iteration budget of
//! selection, expansion, random simulation and backpropagation passes,
//! and returns a legal action whenever one exists.
//!
//! Three verified games come with the engine: tic-tac-toe and
//! connect-four ([`game`], [`game::connect4`]) as adversarial
//! two-player games, and tetris ([`game::tetris`]) as a single-agent,
//! reward-accumulating one.

pub mod game;
pub mod mcts;
