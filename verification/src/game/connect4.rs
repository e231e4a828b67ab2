//! The connect-four rule engine.
//!
//! The board has 6 rows and 7 columns, stored in row-major order with
//! row 0 at the top; a move drops a piece to the lowest empty row of a
//! column.

use vstd::prelude::*;

use crate::game::{
    empty_cells_upto, lemma_empty_cells_contains, lemma_empty_cells_update, Cell, Game, GameResult,
    Player,
};

verus! {

/// The square of a connect-four board at row `r`, column `c`.
pub open spec fn c4_at(s: Seq<Cell>, r: int, c: int) -> Cell {
    s[r * 7 + c]
}

/// Four-in-a-row to the right, starting at row `r`, column `c`.
pub open spec fn horiz_at(s: Seq<Cell>, p: Player, r: int, c: int) -> bool {
    &&& c4_at(s, r, c) == Cell::Occupied(p)
    &&& c4_at(s, r, c + 1) == Cell::Occupied(p)
    &&& c4_at(s, r, c + 2) == Cell::Occupied(p)
    &&& c4_at(s, r, c + 3) == Cell::Occupied(p)
}

/// Four-in-a-row downwards, starting at row `r`, column `c`.
pub open spec fn vert_at(s: Seq<Cell>, p: Player, r: int, c: int) -> bool {
    &&& c4_at(s, r, c) == Cell::Occupied(p)
    &&& c4_at(s, r + 1, c) == Cell::Occupied(p)
    &&& c4_at(s, r + 2, c) == Cell::Occupied(p)
    &&& c4_at(s, r + 3, c) == Cell::Occupied(p)
}

/// Four-in-a-row up and to the right, starting at row `r`, column `c`.
pub open spec fn diag_up_at(s: Seq<Cell>, p: Player, r: int, c: int) -> bool {
    &&& c4_at(s, r, c) == Cell::Occupied(p)
    &&& c4_at(s, r - 1, c + 1) == Cell::Occupied(p)
    &&& c4_at(s, r - 2, c + 2) == Cell::Occupied(p)
    &&& c4_at(s, r - 3, c + 3) == Cell::Occupied(p)
}

/// Four-in-a-row down and to the right, starting at row `r`, column `c`.
pub open spec fn diag_down_at(s: Seq<Cell>, p: Player, r: int, c: int) -> bool {
    &&& c4_at(s, r, c) == Cell::Occupied(p)
    &&& c4_at(s, r + 1, c + 1) == Cell::Occupied(p)
    &&& c4_at(s, r + 2, c + 2) == Cell::Occupied(p)
    &&& c4_at(s, r + 3, c + 3) == Cell::Occupied(p)
}

/// Player `p` holds four connected pieces somewhere on the board.
pub open spec fn c4_wins(s: Seq<Cell>, p: Player) -> bool {
    ||| exists|r: int, c: int| 0 <= r < 6 && 0 <= c < 4 && horiz_at(s, p, r, c)
    ||| exists|r: int, c: int| 0 <= r < 3 && 0 <= c < 7 && vert_at(s, p, r, c)
    ||| exists|r: int, c: int| 3 <= r < 6 && 0 <= c < 4 && diag_up_at(s, p, r, c)
    ||| exists|r: int, c: int| 0 <= r < 3 && 0 <= c < 4 && diag_down_at(s, p, r, c)
}

/// Every column is filled to the top.
pub open spec fn c4_top_full(s: Seq<Cell>) -> bool {
    forall|c: int| 0 <= c < 7 ==> s[c] !is Empty
}

/// The outcome a connect-four board stands for.
pub open spec fn c4_result(s: Seq<Cell>) -> Option<GameResult> {
    if c4_wins(s, Player::X) {
        Some(GameResult::Win(Player::X))
    } else if c4_wins(s, Player::O) {
        Some(GameResult::Win(Player::O))
    } else if c4_top_full(s) {
        Some(GameResult::Draw)
    } else {
        None
    }
}

/// The lowest empty row of column `col` at or above `row`, or -1 if
/// the column is filled from `row` down.
pub open spec fn drop_row(s: Seq<Cell>, col: int, row: int) -> int
    decreases row + 1,
{
    if row < 0 {
        -1
    } else if s[row * 7 + col] is Empty {
        row
    } else {
        drop_row(s, col, row - 1)
    }
}

/// `drop_row` finds the lowest empty row, scanning upward.
pub proof fn lemma_drop_row(s: Seq<Cell>, col: int, row: int)
    requires
        0 <= col < 7,
        -1 <= row < 6,
    ensures
        -1 <= drop_row(s, col, row) <= row,
        drop_row(s, col, row) >= 0 ==> s[drop_row(s, col, row) * 7 + col] is Empty,
        forall|rr: int| drop_row(s, col, row) < rr <= row ==> #[trigger] s[rr * 7 + col] !is Empty,
    decreases row + 1,
{
    if row >= 0 && !(s[row * 7 + col] is Empty) {
        lemma_drop_row(s, col, row - 1);
    }
}

/// A 6-by-7 connect-four position: the board in row-major order, the
/// player to move, and the cached outcome.
#[derive(Debug)]
pub struct Connect4 {
    board: Vec<Cell>,
    current_player: Player,
    result: Option<GameResult>,
}

impl Connect4 {
    /// The board squares in row-major order, row 0 on top.
    pub closed spec fn spec_board(&self) -> Seq<Cell> {
        self.board@
    }

    /// Whether the game has ended.
    pub fn is_terminal(&self) -> (b: bool)
        requires
            self.inv(),
        ensures
            b == (self.spec_result() is Some),
    {
        self.result.is_some()
    }

    /// The legal actions are exactly the columns of a running game
    /// whose top square is still free.
    pub proof fn lemma_actions_are_open_columns(&self)
        requires
            self.inv(),
        ensures
            forall|a: usize| #[trigger] self.spec_actions().contains(a) <==> (self.spec_result()
                is None && a < 7 && self.spec_board()[a as int] is Empty),
    {
        lemma_empty_cells_contains(self.board@, 7);
    }

    /// The square at `row`, `col` (row 0 is the top).
    pub fn cell(&self, row: usize, col: usize) -> (c: Cell)
        requires
            self.inv(),
            row < 6,
            col < 7,
        ensures
            c == self.spec_board()[row * 7 + col],
    {
        self.board[row * 7 + col]
    }

    /// Looks for a horizontal four-in-a-row of `p`.
    fn has_horiz_win(&self, p: Player) -> (found: bool)
        requires
            self.board@.len() == 42,
        ensures
            found == exists|r: int, c: int| 0 <= r < 6 && 0 <= c < 4 && horiz_at(
                self.board@,
                p,
                r,
                c,
            ),
    {
        let mut r: usize = 0;
        while r < 6
            invariant
                r <= 6,
                self.board@.len() == 42,
                forall|rr: int, cc: int|
                    0 <= rr < r && 0 <= cc < 4 ==> !horiz_at(self.board@, p, rr, cc),
            decreases 6 - r,
        {
            let mut c: usize = 0;
            while c < 4
                invariant
                    r < 6,
                    c <= 4,
                    self.board@.len() == 42,
                    forall|cc: int| 0 <= cc < c ==> !horiz_at(self.board@, p, r as int, cc),
                decreases 4 - c,
            {
                let base = r * 7 + c;
                if self.board[base] == Cell::Occupied(p) && self.board[base + 1]
                    == Cell::Occupied(p) && self.board[base + 2] == Cell::Occupied(p)
                    && self.board[base + 3] == Cell::Occupied(p) {
                    assert(horiz_at(self.board@, p, r as int, c as int));
                    return true;
                }
                c = c + 1;
            }
            r = r + 1;
        }
        false
    }

    /// Looks for a vertical four-in-a-row of `p`.
    fn has_vert_win(&self, p: Player) -> (found: bool)
        requires
            self.board@.len() == 42,
        ensures
            found == exists|r: int, c: int| 0 <= r < 3 && 0 <= c < 7 && vert_at(
                self.board@,
                p,
                r,
                c,
            ),
    {
        let mut r: usize = 0;
        while r < 3
            invariant
                r <= 3,
                self.board@.len() == 42,
                forall|rr: int, cc: int|
                    0 <= rr < r && 0 <= cc < 7 ==> !vert_at(self.board@, p, rr, cc),
            decreases 3 - r,
        {
            let mut c: usize = 0;
            while c < 7
                invariant
                    r < 3,
                    c <= 7,
                    self.board@.len() == 42,
                    forall|cc: int| 0 <= cc < c ==> !vert_at(self.board@, p, r as int, cc),
                decreases 7 - c,
            {
                let base = r * 7 + c;
                if self.board[base] == Cell::Occupied(p) && self.board[base + 7]
                    == Cell::Occupied(p) && self.board[base + 14] == Cell::Occupied(p)
                    && self.board[base + 21] == Cell::Occupied(p) {
                    assert(vert_at(self.board@, p, r as int, c as int));
                    return true;
                }
                c = c + 1;
            }
            r = r + 1;
        }
        false
    }

    /// Looks for an upward diagonal four-in-a-row of `p`.
    fn has_diag_up_win(&self, p: Player) -> (found: bool)
        requires
            self.board@.len() == 42,
        ensures
            found == exists|r: int, c: int| 3 <= r < 6 && 0 <= c < 4 && diag_up_at(
                self.board@,
                p,
                r,
                c,
            ),
    {
        let mut r: usize = 3;
        while r < 6
            invariant
                3 <= r <= 6,
                self.board@.len() == 42,
                forall|rr: int, cc: int|
                    3 <= rr < r && 0 <= cc < 4 ==> !diag_up_at(self.board@, p, rr, cc),
            decreases 6 - r,
        {
            let mut c: usize = 0;
            while c < 4
                invariant
                    3 <= r < 6,
                    c <= 4,
                    self.board@.len() == 42,
                    forall|cc: int| 0 <= cc < c ==> !diag_up_at(self.board@, p, r as int, cc),
                decreases 4 - c,
            {
                let base = r * 7 + c;
                if self.board[base] == Cell::Occupied(p) && self.board[base - 6]
                    == Cell::Occupied(p) && self.board[base - 12] == Cell::Occupied(p)
                    && self.board[base - 18] == Cell::Occupied(p) {
                    assert(diag_up_at(self.board@, p, r as int, c as int));
                    return true;
                }
                c = c + 1;
            }
            r = r + 1;
        }
        false
    }

    /// Looks for a downward diagonal four-in-a-row of `p`.
    fn has_diag_down_win(&self, p: Player) -> (found: bool)
        requires
            self.board@.len() == 42,
        ensures
            found == exists|r: int, c: int| 0 <= r < 3 && 0 <= c < 4 && diag_down_at(
                self.board@,
                p,
                r,
                c,
            ),
    {
        let mut r: usize = 0;
        while r < 3
            invariant
                r <= 3,
                self.board@.len() == 42,
                forall|rr: int, cc: int|
                    0 <= rr < r && 0 <= cc < 4 ==> !diag_down_at(self.board@, p, rr, cc),
            decreases 3 - r,
        {
            let mut c: usize = 0;
            while c < 4
                invariant
                    r < 3,
                    c <= 4,
                    self.board@.len() == 42,
                    forall|cc: int| 0 <= cc < c ==> !diag_down_at(self.board@, p, r as int, cc),
                decreases 4 - c,
            {
                let base = r * 7 + c;
                if self.board[base] == Cell::Occupied(p) && self.board[base + 8]
                    == Cell::Occupied(p) && self.board[base + 16] == Cell::Occupied(p)
                    && self.board[base + 24] == Cell::Occupied(p) {
                    assert(diag_down_at(self.board@, p, r as int, c as int));
                    return true;
                }
                c = c + 1;
            }
            r = r + 1;
        }
        false
    }

    /// Player `p` holds four connected pieces somewhere on the board.
    fn has_win(&self, p: Player) -> (found: bool)
        requires
            self.board@.len() == 42,
        ensures
            found == c4_wins(self.board@, p),
    {
        self.has_horiz_win(p) || self.has_vert_win(p) || self.has_diag_up_win(p)
            || self.has_diag_down_win(p)
    }

    /// The top row has no empty square.
    fn is_top_full(&self) -> (full: bool)
        requires
            self.board@.len() == 42,
        ensures
            full == c4_top_full(self.board@),
    {
        let mut c: usize = 0;
        while c < 7
            invariant
                c <= 7,
                self.board@.len() == 42,
                forall|j: int| 0 <= j < c ==> self.board@[j] !is Empty,
            decreases 7 - c,
        {
            if self.board[c] == Cell::Empty {
                return false;
            }
            c = c + 1;
        }
        true
    }

    /// Recomputes the cached outcome from the board.
    fn update_result(&mut self)
        requires
            old(self).board@.len() == 42,
        ensures
            final(self).board == old(self).board,
            final(self).current_player == old(self).current_player,
            final(self).result == c4_result(old(self).board@),
    {
        if self.has_win(Player::X) {
            self.result = Some(GameResult::Win(Player::X));
        } else if self.has_win(Player::O) {
            self.result = Some(GameResult::Win(Player::O));
        } else if self.is_top_full() {
            self.result = Some(GameResult::Draw);
        } else {
            self.result = None;
        }
    }

    /// Drops the current player's piece to the lowest empty row of
    /// `col`, failing if the column is full.
    fn drop_piece(&mut self, col: usize) -> (r: Result<(), &'static str>)
        requires
            old(self).board@.len() == 42,
            col < 7,
        ensures
            final(self).board@.len() == 42,
            final(self).current_player == old(self).current_player,
            final(self).result == old(self).result,
            r is Ok <==> drop_row(old(self).board@, col as int, 5) >= 0,
            r is Ok ==> final(self).board@ == old(self).board@.update(
                drop_row(old(self).board@, col as int, 5) * 7 + col,
                Cell::Occupied(old(self).current_player),
            ),
            r is Err ==> final(self).board == old(self).board,
    {
        proof {
            lemma_drop_row(self.board@, col as int, 5);
        }
        let mut i: usize = 0;
        while i < 6
            invariant
                i <= 6,
                *self == *old(self),
                self.board@.len() == 42,
                col < 7,
                drop_row(self.board@, col as int, 5) == drop_row(self.board@, col as int, 5 - i),
            decreases 6 - i,
        {
            let row = 5 - i;
            if self.board[row * 7 + col] == Cell::Empty {
                self.board.set(row * 7 + col, Cell::Occupied(self.current_player));
                return Ok(());
            }
            i = i + 1;
        }
        Err("Column is full")
    }
}

impl Default for Connect4 {
    /// An empty board with `X` to move.
    fn default() -> (g: Connect4)
        ensures
            g.inv(),
            g.spec_result() is None,
            g.spec_player() == Player::X,
            g.spec_board() == Seq::new(42, |i: int| Cell::Empty),
    {
        let mut board: Vec<Cell> = Vec::new();
        let mut i: usize = 0;
        while i < 42
            invariant
                i <= 42,
                board@ =~= Seq::new(i as nat, |j: int| Cell::Empty),
            decreases 42 - i,
        {
            board.push(Cell::Empty);
            i = i + 1;
        }
        let g = Connect4 { board, current_player: Player::X, result: None };
        proof {
            assert(g.board@ =~= Seq::new(42, |i: int| Cell::Empty));
            assert(forall|i: int| 0 <= i < 42 ==> g.board@[i] is Empty);
            assert(g.board@[0] is Empty);
            assert(!c4_top_full(g.board@));
            assert(forall|r: int, c: int|
                0 <= r < 6 && 0 <= c < 7 ==> #[trigger] c4_at(g.board@, r, c) is Empty);
            assert(!c4_wins(g.board@, Player::X));
            assert(!c4_wins(g.board@, Player::O));
        }
        g
    }
}

impl Game for Connect4 {
    closed spec fn inv(&self) -> bool {
        &&& self.board@.len() == 42
        &&& self.result == c4_result(self.board@)
    }

    closed spec fn spec_result(&self) -> Option<GameResult> {
        self.result
    }

    closed spec fn spec_actions(&self) -> Seq<usize> {
        if self.result is Some {
            Seq::empty()
        } else {
            empty_cells_upto(self.board@, 7)
        }
    }

    closed spec fn spec_player(&self) -> Player {
        self.current_player
    }

    closed spec fn spec_reward(&self) -> i64 {
        0
    }

    closed spec fn measure(&self) -> nat {
        empty_cells_upto(self.board@, 42).len()
    }

    proof fn lemma_well_formed(&self) {
        lemma_empty_cells_contains(self.board@, 7);
        if self.result is None {
            assert(!c4_top_full(self.board@));
            let j = choose|j: int| 0 <= j < 7 && self.board@[j] is Empty;
            assert(empty_cells_upto(self.board@, 7).contains(j as usize));
        }
    }

    fn result(&self) -> (r: Option<GameResult>) {
        self.result
    }

    fn allowed_actions(&self) -> (v: Vec<usize>) {
        let mut v: Vec<usize> = Vec::new();
        if self.result.is_some() {
            return v;
        }
        let mut c: usize = 0;
        while c < 7
            invariant
                c <= 7,
                self.board@.len() == 42,
                v@ == empty_cells_upto(self.board@, c as int),
            decreases 7 - c,
        {
            if self.board[c] == Cell::Empty {
                v.push(c);
            }
            c = c + 1;
        }
        v
    }

    fn current_player(&self) -> (p: Player) {
        self.current_player
    }

    fn current_reward(&self) -> (r: i64) {
        0
    }

    fn step(&mut self, action: usize) -> (r: Result<(), &'static str>)
        ensures
            r is Ok ==> final(self).spec_board() == old(self).spec_board().update(
                drop_row(old(self).spec_board(), action as int, 5) * 7 + action,
                Cell::Occupied(old(self).spec_player()),
            ) && final(self).spec_player() == old(self).spec_player().spec_opponent() && final(self).spec_result() == c4_result(final(self).spec_board()),
    {
        proof {
            lemma_empty_cells_contains(self.board@, 7);
        }
        if action >= 7 {
            return Err("Column out of bounds");
        }
        if self.board[action] != Cell::Empty {
            return Err("Column is full");
        }
        if self.result.is_some() {
            return Err("Game already finished");
        }
        proof {
            lemma_drop_row(self.board@, action as int, 5);
            let d = drop_row(self.board@, action as int, 5);
            assert(d >= 0) by {
                if d < 0 {
                    assert(self.board@[0 * 7 + action] !is Empty);
                }
            }
            lemma_empty_cells_update(
                self.board@,
                d * 7 + action,
                self.current_player,
                42,
            );
            lemma_empty_cells_update(
                self.board@,
                d * 7 + action,
                self.current_player,
                7,
            );
        }
        let res = self.drop_piece(action);
        match res {
            Ok(()) => {},
            Err(e) => {
                return Err(e);
            },
        }
        self.update_result();
        self.current_player = self.current_player.opponent();
        Ok(())
    }

    fn duplicate(&self) -> (r: Self) {
        let mut board: Vec<Cell> = Vec::new();
        let mut i: usize = 0;
        while i < 42
            invariant
                i <= 42,
                self.board@.len() == 42,
                board@ == self.board@.take(i as int),
            decreases 42 - i,
        {
            let c = self.board[i];
            board.push(c);
            proof {
                assert(board@ =~= self.board@.take(i + 1));
            }
            i = i + 1;
        }
        proof {
            assert(board@ =~= self.board@);
        }
        Connect4 { board, current_player: self.current_player, result: self.result }
    }
}

} // verus!
