//! The game capability contract and the tic-tac-toe rule engine.
//!
//! A game exposes its legal actions, the player to move, its terminal
//! outcome, and a `step` operation; the search engine in `crate::mcts`
//! is generic over any type implementing the [`Game`] trait.

use vstd::prelude::*;

pub mod connect4;
pub mod tetris;

verus! {

/// Largest magnitude a game may report as a reward scalar.
///
/// Reward scalars are plain integers in a fixed-point convention where a
/// full win of an adversarial game is worth 2 units (so a draw, half a
/// win, is worth 1).  Bounding them lets the engine accumulate rewards
/// over billions of iterations without overflow.
pub const MAX_ABS_REWARD: i64 = 1_000_000;

/// One of the two players of an adversarial, turn-based game.
#[derive(Clone, Copy, PartialEq, Eq, Structural, Debug)]
pub enum Player {
    X,
    O,
}

impl Player {
    /// The other player.
    pub open spec fn spec_opponent(self) -> Player {
        match self {
            Player::X => Player::O,
            Player::O => Player::X,
        }
    }

    /// The other player.
    pub fn opponent(self) -> (r: Player)
        ensures
            r == self.spec_opponent(),
    {
        match self {
            Player::X => Player::O,
            Player::O => Player::X,
        }
    }
}

/// One square of a grid board.
#[derive(Clone, Copy, PartialEq, Eq, Structural, Debug)]
pub enum Cell {
    Empty,
    Occupied(Player),
}

/// The terminal outcome of a game.
///
/// `Win` and `Draw` are used by adversarial two-player games; `End`
/// carries the reward scalar of a single-agent, reward-accumulating
/// game (in the fixed-point units described at [`MAX_ABS_REWARD`]).
#[derive(Clone, Copy, PartialEq, Eq, Structural, Debug)]
pub enum GameResult {
    Win(Player),
    Draw,
    End(i64),
}

/// The capability contract every playable game must satisfy.
///
/// The contract ties the executable operations to spec-level views of
/// the state: the legal actions are a fixed sequence per state, the
/// action sequence is empty exactly on terminal states, `step`
/// succeeds exactly on legal actions and strictly decreases `measure`
/// (so random playouts terminate), and `duplicate` yields a state
/// indistinguishable from the original.
pub trait Game: Sized {
    /// Well-formedness of a state; established by constructors and
    /// preserved by `step`.
    spec fn inv(&self) -> bool;

    /// The outcome reported by `result`.
    spec fn spec_result(&self) -> Option<GameResult>;

    /// The exact sequence of legal actions reported by `allowed_actions`.
    spec fn spec_actions(&self) -> Seq<usize>;

    /// The player reported by `current_player`.
    spec fn spec_player(&self) -> Player;

    /// The intermediate reward reported by `current_reward`.
    spec fn spec_reward(&self) -> i64;

    /// An upper bound on the number of remaining `step`s; every
    /// successful `step` strictly decreases it.
    spec fn measure(&self) -> nat;

    /// The laws every well-formed state obeys: a state has no legal
    /// action exactly when it is terminal, and all reward scalars it
    /// reports are bounded by [`MAX_ABS_REWARD`].
    proof fn lemma_well_formed(&self)
        requires
            self.inv(),
        ensures
            self.spec_actions().len() == 0 <==> self.spec_result() is Some,
            -MAX_ABS_REWARD <= self.spec_reward() <= MAX_ABS_REWARD,
            self.spec_result() matches Some(GameResult::End(x)) ==> -MAX_ABS_REWARD <= x
                <= MAX_ABS_REWARD,
    ;

    /// The terminal outcome, or `None` while the game is still running.
    fn result(&self) -> (r: Option<GameResult>)
        requires
            self.inv(),
        ensures
            r == self.spec_result(),
    ;

    /// The legal actions from this state; empty exactly when terminal.
    fn allowed_actions(&self) -> (v: Vec<usize>)
        requires
            self.inv(),
        ensures
            v@ == self.spec_actions(),
    ;

    /// The player to act next.
    fn current_player(&self) -> (p: Player)
        requires
            self.inv(),
        ensures
            p == self.spec_player(),
    ;

    /// The intermediate reward signal; reward-accumulating games report
    /// their running score, adversarial games report 0.
    fn current_reward(&self) -> (r: i64)
        requires
            self.inv(),
        ensures
            r == self.spec_reward(),
    ;

    /// Applies `action`, succeeding exactly on the currently legal
    /// actions and leaving the state untouched on failure.
    fn step(&mut self, action: usize) -> (r: Result<(), &'static str>)
        requires
            old(self).inv(),
        ensures
            final(self).inv(),
            r is Ok <==> old(self).spec_actions().contains(action),
            r is Ok ==> final(self).measure() < old(self).measure(),
            r is Err ==> *final(self) == *old(self),
    ;

    /// An independent deep copy of the state.
    fn duplicate(&self) -> (r: Self)
        requires
            self.inv(),
        ensures
            r.inv(),
            r.spec_result() == self.spec_result(),
            r.spec_actions() == self.spec_actions(),
            r.spec_player() == self.spec_player(),
            r.spec_reward() == self.spec_reward(),
            r.measure() == self.measure(),
    ;
}

/// All three squares `a`, `b`, `c` are occupied by `p`.
pub open spec fn line3(s: Seq<Cell>, p: Player, a: int, b: int, c: int) -> bool {
    &&& s[a] == Cell::Occupied(p)
    &&& s[b] == Cell::Occupied(p)
    &&& s[c] == Cell::Occupied(p)
}

/// Player `p` holds one of the eight tic-tac-toe lines.
pub open spec fn ttt_wins(s: Seq<Cell>, p: Player) -> bool {
    ||| line3(s, p, 0, 1, 2)
    ||| line3(s, p, 3, 4, 5)
    ||| line3(s, p, 6, 7, 8)
    ||| line3(s, p, 0, 3, 6)
    ||| line3(s, p, 1, 4, 7)
    ||| line3(s, p, 2, 5, 8)
    ||| line3(s, p, 0, 4, 8)
    ||| line3(s, p, 2, 4, 6)
}

/// No square of the board is empty.
pub open spec fn board_full(s: Seq<Cell>) -> bool {
    forall|i: int| 0 <= i < s.len() ==> s[i] !is Empty
}

/// The outcome a tic-tac-toe board stands for.
pub open spec fn ttt_result(s: Seq<Cell>) -> Option<GameResult> {
    if ttt_wins(s, Player::X) {
        Some(GameResult::Win(Player::X))
    } else if ttt_wins(s, Player::O) {
        Some(GameResult::Win(Player::O))
    } else if board_full(s) {
        Some(GameResult::Draw)
    } else {
        None
    }
}

/// The indices below `n` whose square is empty, in ascending order.
pub open spec fn empty_cells_upto(s: Seq<Cell>, n: int) -> Seq<usize>
    decreases n,
{
    if n <= 0 {
        Seq::empty()
    } else if s[n - 1] is Empty {
        empty_cells_upto(s, n - 1).push((n - 1) as usize)
    } else {
        empty_cells_upto(s, n - 1)
    }
}

/// `empty_cells_upto` lists exactly the empty squares below `n`.
pub proof fn lemma_empty_cells_contains(s: Seq<Cell>, n: int)
    requires
        0 <= n <= usize::MAX,
    ensures
        forall|j: usize| #[trigger] empty_cells_upto(s, n).contains(j) <==> j < n && s[j as int]
            is Empty,
    decreases n,
{
    broadcast use vstd::seq_lib::lemma_seq_contains_after_push;

    if n > 0 {
        lemma_empty_cells_contains(s, n - 1);
        let e = empty_cells_upto(s, n - 1);
        assert forall|j: usize| #[trigger] empty_cells_upto(s, n).contains(j) <==> (j < n && s[j
            as int] is Empty) by {
            if s[n - 1] is Empty {
                assert(empty_cells_upto(s, n) == e.push((n - 1) as usize));
                assert(e.push((n - 1) as usize).contains(j) <==> ((n - 1) as usize == j
                    || e.contains(j)));
            }
        }
    }
}

/// Occupying the empty square `i` removes exactly one entry from the
/// empty-square listing.
pub proof fn lemma_empty_cells_update(s: Seq<Cell>, i: int, p: Player, n: int)
    requires
        0 <= i < s.len(),
        s[i] is Empty,
        n <= s.len(),
    ensures
        empty_cells_upto(s.update(i, Cell::Occupied(p)), n).len() == empty_cells_upto(s, n).len()
            - (if i < n {
            1int
        } else {
            0int
        }),
    decreases n,
{
    if n > 0 {
        lemma_empty_cells_update(s, i, p, n - 1);
    }
}

/// A 3-by-3 tic-tac-toe position: the board in row-major order, the
/// player to move, and the cached outcome.
#[derive(Debug)]
pub struct TicTacToe {
    board: Vec<Cell>,
    current_player: Player,
    result: Option<GameResult>,
}

impl TicTacToe {
    /// The board squares in row-major order.
    pub closed spec fn spec_board(&self) -> Seq<Cell> {
        self.board@
    }

    /// Whether the game has ended.
    pub fn is_terminal(&self) -> (b: bool)
        requires
            self.inv(),
        ensures
            b == (self.spec_result() is Some),
    {
        self.result.is_some()
    }

    /// The legal actions are exactly the empty squares of a running
    /// game.
    pub proof fn lemma_actions_are_empty_squares(&self)
        requires
            self.inv(),
        ensures
            forall|a: usize| #[trigger] self.spec_actions().contains(a) <==> (self.spec_result()
                is None && a < 9 && self.spec_board()[a as int] is Empty),
    {
        lemma_empty_cells_contains(self.board@, 9);
    }

    /// The square at `index` (row-major, 0 through 8).
    pub fn cell(&self, index: usize) -> (c: Cell)
        requires
            self.inv(),
            index < 9,
        ensures
            c == self.spec_board()[index as int],
    {
        self.board[index]
    }

    /// The three squares `a`, `b`, `c` all belong to `p`.
    fn line_is(&self, p: Player, a: usize, b: usize, c: usize) -> (r: bool)
        requires
            self.board@.len() == 9,
            a < 9,
            b < 9,
            c < 9,
        ensures
            r == line3(self.board@, p, a as int, b as int, c as int),
    {
        self.board[a] == Cell::Occupied(p) && self.board[b] == Cell::Occupied(p) && self.board[c]
            == Cell::Occupied(p)
    }

    /// Player `p` holds one of the eight lines.
    fn has_win(&self, p: Player) -> (r: bool)
        requires
            self.board@.len() == 9,
        ensures
            r == ttt_wins(self.board@, p),
    {
        self.line_is(p, 0, 1, 2) || self.line_is(p, 3, 4, 5) || self.line_is(p, 6, 7, 8)
            || self.line_is(p, 0, 3, 6) || self.line_is(p, 1, 4, 7) || self.line_is(p, 2, 5, 8)
            || self.line_is(p, 0, 4, 8) || self.line_is(p, 2, 4, 6)
    }

    /// No square is empty.
    fn is_full(&self) -> (r: bool)
        requires
            self.board@.len() == 9,
        ensures
            r == board_full(self.board@),
    {
        let mut i: usize = 0;
        while i < 9
            invariant
                i <= 9,
                self.board@.len() == 9,
                forall|j: int| 0 <= j < i ==> self.board@[j] !is Empty,
            decreases 9 - i,
        {
            if self.board[i] == Cell::Empty {
                return false;
            }
            i = i + 1;
        }
        true
    }

    /// Recomputes the cached outcome from the board.
    fn update_result(&mut self)
        requires
            old(self).board@.len() == 9,
        ensures
            final(self).board == old(self).board,
            final(self).current_player == old(self).current_player,
            final(self).result == ttt_result(old(self).board@),
    {
        if self.has_win(Player::X) {
            self.result = Some(GameResult::Win(Player::X));
        } else if self.has_win(Player::O) {
            self.result = Some(GameResult::Win(Player::O));
        } else if self.is_full() {
            self.result = Some(GameResult::Draw);
        } else {
            self.result = None;
        }
    }
}

impl Default for TicTacToe {
    /// An empty board with `X` to move.
    fn default() -> (t: TicTacToe)
        ensures
            t.inv(),
            t.spec_result() is None,
            t.spec_player() == Player::X,
            t.spec_board() == Seq::new(9, |i: int| Cell::Empty),
    {
        let mut board: Vec<Cell> = Vec::new();
        let mut i: usize = 0;
        while i < 9
            invariant
                i <= 9,
                board@ =~= Seq::new(i as nat, |j: int| Cell::Empty),
            decreases 9 - i,
        {
            board.push(Cell::Empty);
            i = i + 1;
        }
        let t = TicTacToe { board, current_player: Player::X, result: None };
        assert(t.board@ =~= Seq::new(9, |i: int| Cell::Empty));
        t
    }
}

impl Game for TicTacToe {
    closed spec fn inv(&self) -> bool {
        &&& self.board@.len() == 9
        &&& self.result == ttt_result(self.board@)
    }

    closed spec fn spec_result(&self) -> Option<GameResult> {
        self.result
    }

    closed spec fn spec_actions(&self) -> Seq<usize> {
        if self.result is Some {
            Seq::empty()
        } else {
            empty_cells_upto(self.board@, 9)
        }
    }

    closed spec fn spec_player(&self) -> Player {
        self.current_player
    }

    closed spec fn spec_reward(&self) -> i64 {
        0
    }

    closed spec fn measure(&self) -> nat {
        empty_cells_upto(self.board@, 9).len()
    }

    proof fn lemma_well_formed(&self) {
        lemma_empty_cells_contains(self.board@, 9);
        if self.result is None {
            assert(!board_full(self.board@));
            let j = choose|j: int| 0 <= j < 9 && self.board@[j] is Empty;
            assert(empty_cells_upto(self.board@, 9).contains(j as usize));
        }
    }

    fn result(&self) -> (r: Option<GameResult>) {
        self.result
    }

    fn allowed_actions(&self) -> (v: Vec<usize>)
    {
        let mut v: Vec<usize> = Vec::new();
        if self.result.is_some() {
            return v;
        }
        let mut i: usize = 0;
        while i < 9
            invariant
                i <= 9,
                self.board@.len() == 9,
                v@ == empty_cells_upto(self.board@, i as int),
            decreases 9 - i,
        {
            if self.board[i] == Cell::Empty {
                v.push(i);
            }
            i = i + 1;
        }
        v
    }

    fn current_player(&self) -> (p: Player) {
        self.current_player
    }

    fn current_reward(&self) -> (r: i64) {
        0
    }

    fn step(&mut self, action: usize) -> (r: Result<(), &'static str>)
        ensures
            r is Ok ==> final(self).spec_board() == old(self).spec_board().update(
                action as int,
                Cell::Occupied(old(self).spec_player()),
            ) && final(self).spec_player() == old(self).spec_player().spec_opponent() && final(self).spec_result() == ttt_result(final(self).spec_board()),
    {
        proof {
            lemma_empty_cells_contains(self.board@, 9);
        }
        if action >= 9 {
            return Err("Position out of bounds");
        }
        if self.board[action] != Cell::Empty {
            return Err("Cell already occupied");
        }
        if self.result.is_some() {
            return Err("Game already finished");
        }
        proof {
            lemma_empty_cells_contains(self.board@, 9);
            lemma_empty_cells_update(self.board@, action as int, self.current_player, 9);
        }
        self.board.set(action, Cell::Occupied(self.current_player));
        self.update_result();
        self.current_player = self.current_player.opponent();
        Ok(())
    }

    fn duplicate(&self) -> (r: Self) {
        let mut board: Vec<Cell> = Vec::new();
        let mut i: usize = 0;
        while i < 9
            invariant
                i <= 9,
                self.board@.len() == 9,
                board@ == self.board@.take(i as int),
            decreases 9 - i,
        {
            let c = self.board[i];
            board.push(c);
            proof {
                assert(board@ =~= self.board@.take(i + 1));
            }
            i = i + 1;
        }
        proof {
            assert(board@ =~= self.board@);
        }
        TicTacToe { board, current_player: self.current_player, result: self.result }
    }
}

} // verus!
