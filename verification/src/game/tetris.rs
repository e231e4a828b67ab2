//! The tetris rule engine: a single-agent, reward-accumulating game.
//!
//! The playfield is 20 rows by 10 columns; seven tetromino shapes are
//! dealt from a deck of two shuffled seven-piece bags.  Rewards are
//! plain integers in hundredths of the engine's half-win unit, so a
//! cleared four-line combo is worth 1.0.  An episode ends when a new
//! tetromino cannot spawn or when the tick budget runs out.

use vstd::prelude::*;

use rand::{Rng, SeedableRng};

use crate::game::{Game, GameResult, Player};

verus! {

/// Number of playfield rows.
pub const NUM_ROWS: usize = 20;

/// Number of playfield columns.
pub const NUM_COLS: usize = 10;

/// Number of distinct tetromino shapes.
pub const NUM_TETROMINOES: usize = 7;

/// Number of rotation states per shape.
pub const NUM_ROTATIONS: usize = 4;

/// The deck holds two seven-piece bags.
pub const DECK_SIZE: usize = 14;

/// The tick budget of one episode.
pub const MAX_TICKS: usize = 10000;

/// Ticks before the tetromino falls one row on its own.
const INITIAL_TICKS_PER_FALL: usize = 6;

/// Lines to clear per difficulty level.
const LINES_PER_LEVEL: u32 = 10;

/// Score for one soft drop.
const SCORE_SOFT_DROP: usize = 1;

/// Score for a hard drop.
const SCORE_HARD_DROP: usize = 2;

/// Reward per row of a hard drop, in centi-units.
const REWARD_HARD_DROP: i64 = 2;

/// Reward for a rotation, in centi-units.
const REWARD_ROTATE: i64 = 1;

/// `rand::rngs::SmallRng`, declared so a game state can hold one as a
/// field.
#[verifier::external_type_specification]
#[verifier::external_body]
pub struct ExSmallRng(rand::rngs::SmallRng);

/// Relies on rand's SmallRng::seed_from_u64: builds a deterministic
/// generator from an integer seed.
#[verifier::external_body]
fn small_rng_from_seed(seed: u64) -> rand::rngs::SmallRng {
    rand::rngs::SmallRng::seed_from_u64(seed)
}

/// Relies on rand::rng and Rng::random: draws a seed from the
/// thread-local generator.
#[verifier::external_body]
fn entropy_seed() -> u64 {
    rand::rng().random()
}

/// Relies on rand's Rng::random_range: a draw from `0..=hi` is at most
/// `hi` (the range is never empty, so the method cannot panic).
#[verifier::external_body]
fn rng_below_inclusive(rng: &mut rand::rngs::SmallRng, hi: usize) -> (r: usize)
    ensures
        r <= hi,
{
    rng.random_range(0..=hi)
}

/// One tetris move.
#[derive(Clone, Copy, PartialEq, Eq, Structural, Debug)]
pub enum Action {
    NoOp,
    Left,
    Right,
    Rotate,
    SoftDrop,
    HardDrop,
    Hold,
}

impl Action {
    /// The action numbered `value`; unknown numbers fall back to
    /// `NoOp`.
    pub open spec fn spec_from_index(value: int) -> Action {
        if value == 1 {
            Action::Left
        } else if value == 2 {
            Action::Right
        } else if value == 3 {
            Action::Rotate
        } else if value == 4 {
            Action::SoftDrop
        } else if value == 5 {
            Action::HardDrop
        } else if value == 6 {
            Action::Hold
        } else {
            Action::NoOp
        }
    }

    /// The number of this action.
    pub open spec fn spec_index(self) -> int {
        match self {
            Action::NoOp => 0,
            Action::Left => 1,
            Action::Right => 2,
            Action::Rotate => 3,
            Action::SoftDrop => 4,
            Action::HardDrop => 5,
            Action::Hold => 6,
        }
    }

    /// The action numbered `value`; unknown numbers fall back to
    /// `NoOp`.
    pub fn from_index(value: usize) -> (a: Action)
        ensures
            a == Action::spec_from_index(value as int),
    {
        if value == 1 {
            Action::Left
        } else if value == 2 {
            Action::Right
        } else if value == 3 {
            Action::Rotate
        } else if value == 4 {
            Action::SoftDrop
        } else if value == 5 {
            Action::HardDrop
        } else if value == 6 {
            Action::Hold
        } else {
            Action::NoOp
        }
    }

    /// The number of this action.
    pub fn index(self) -> (i: usize)
        ensures
            i == self.spec_index(),
    {
        match self {
            Action::NoOp => 0,
            Action::Left => 1,
            Action::Right => 2,
            Action::Rotate => 3,
            Action::SoftDrop => 4,
            Action::HardDrop => 5,
            Action::Hold => 6,
        }
    }
}

/// The 4-by-4 occupancy mask of tetromino `t` in rotation `rot`; bit
/// `r * 4 + c` stands for the square at row `r`, column `c`.
pub open spec fn spec_shape(t: int, rot: int) -> u16 {
    if t == 0 {
        0x33
    } else if t == 1 {
        if rot % 2 == 0 {
            0x1111
        } else {
            0xf
        }
    } else if t == 2 {
        if rot % 2 == 0 {
            0x231
        } else {
            0x36
        }
    } else if t == 3 {
        if rot % 2 == 0 {
            0x132
        } else {
            0x63
        }
    } else if t == 4 {
        if rot == 0 {
            0x232
        } else if rot == 1 {
            0x72
        } else if rot == 2 {
            0x131
        } else {
            0x27
        }
    } else if t == 5 {
        if rot == 0 {
            0x311
        } else if rot == 1 {
            0x17
        } else if rot == 2 {
            0x223
        } else {
            0x74
        }
    } else {
        if rot == 0 {
            0x322
        } else if rot == 1 {
            0x71
        } else if rot == 2 {
            0x113
        } else {
            0x47
        }
    }
}

/// The shape mask, executable form.
pub fn shape_bits(t: usize, rot: usize) -> (m: u16)
    requires
        t < 7,
        rot < 4,
    ensures
        m == spec_shape(t as int, rot as int),
{
    if t == 0 {
        0x33
    } else if t == 1 {
        if rot % 2 == 0 {
            0x1111
        } else {
            0xf
        }
    } else if t == 2 {
        if rot % 2 == 0 {
            0x231
        } else {
            0x36
        }
    } else if t == 3 {
        if rot % 2 == 0 {
            0x132
        } else {
            0x63
        }
    } else if t == 4 {
        if rot == 0 {
            0x232
        } else if rot == 1 {
            0x72
        } else if rot == 2 {
            0x131
        } else {
            0x27
        }
    } else if t == 5 {
        if rot == 0 {
            0x311
        } else if rot == 1 {
            0x17
        } else if rot == 2 {
            0x223
        } else {
            0x74
        }
    } else {
        if rot == 0 {
            0x322
        } else if rot == 1 {
            0x71
        } else if rot == 2 {
            0x113
        } else {
            0x47
        }
    }
}

/// Tetromino `t` in rotation `rot` occupies the square at row `r`,
/// column `c` of its 4-by-4 frame.
pub open spec fn shape_occupies(t: int, rot: int, r: int, c: int) -> bool {
    (spec_shape(t, rot) >> ((r * 4 + c) as u16)) & 1 == 1
}

/// Width of the filled part of the shape's frame.
pub open spec fn spec_fill_cols(t: int, rot: int) -> int {
    if t == 0 {
        2
    } else if t == 1 {
        if rot % 2 == 0 {
            1
        } else {
            4
        }
    } else if rot % 2 == 0 {
        2
    } else {
        3
    }
}

/// Height of the filled part of the shape's frame.
pub open spec fn spec_fill_rows(t: int, rot: int) -> int {
    if t == 0 {
        2
    } else if t == 1 {
        if rot % 2 == 0 {
            4
        } else {
            1
        }
    } else if rot % 2 == 0 {
        3
    } else {
        2
    }
}

/// Width of the filled part of the shape's frame, executable form.
pub fn fill_cols(t: usize, rot: usize) -> (n: usize)
    requires
        t < 7,
        rot < 4,
    ensures
        n == spec_fill_cols(t as int, rot as int),
        1 <= n <= 4,
{
    if t == 0 {
        2
    } else if t == 1 {
        if rot % 2 == 0 {
            1
        } else {
            4
        }
    } else if rot % 2 == 0 {
        2
    } else {
        3
    }
}

/// Height of the filled part of the shape's frame, executable form.
pub fn fill_rows(t: usize, rot: usize) -> (n: usize)
    requires
        t < 7,
        rot < 4,
    ensures
        n == spec_fill_rows(t as int, rot as int),
        1 <= n <= 4,
{
    if t == 0 {
        2
    } else if t == 1 {
        if rot % 2 == 0 {
            4
        } else {
            1
        }
    } else if rot % 2 == 0 {
        3
    } else {
        2
    }
}

/// The shape, dropped at `row`, `col`, overlaps an occupied square of
/// the grid.
pub open spec fn collides(grid: Seq<u8>, t: int, rot: int, row: int, col: int) -> bool {
    exists|r: int, c: int|
        #![trigger shape_occupies(t, rot, r, c)]
        0 <= r < spec_fill_rows(t, rot) && 0 <= c < spec_fill_cols(t, rot) && shape_occupies(
            t,
            rot,
            r,
            c,
        ) && grid[(r + row) * 10 + (c + col)] != 0
}

/// Collision test, executable form.
fn piece_collides(grid: &Vec<u8>, t: usize, rot: usize, row: usize, col: usize) -> (b: bool)
    requires
        grid@.len() == 200,
        t < 7,
        rot < 4,
        row + spec_fill_rows(t as int, rot as int) <= 20,
        col + spec_fill_cols(t as int, rot as int) <= 10,
    ensures
        b == collides(grid@, t as int, rot as int, row as int, col as int),
{
    let frows = fill_rows(t, rot);
    let fcols = fill_cols(t, rot);
    let mask = shape_bits(t, rot);
    let mut c: usize = 0;
    while c < fcols
        invariant
            grid@.len() == 200,
            t < 7,
            rot < 4,
            row + spec_fill_rows(t as int, rot as int) <= 20,
            col + spec_fill_cols(t as int, rot as int) <= 10,
            frows == spec_fill_rows(t as int, rot as int),
            fcols == spec_fill_cols(t as int, rot as int),
            mask == spec_shape(t as int, rot as int),
            c <= fcols,
            forall|rr: int, cc: int|
                #![trigger shape_occupies(t as int, rot as int, rr, cc)]
                0 <= rr < frows && 0 <= cc < c ==> !(shape_occupies(t as int, rot as int, rr, cc)
                    && grid@[(rr + row) * 10 + (cc + col)] != 0),
        decreases fcols - c,
    {
        let mut r: usize = 0;
        while r < frows
            invariant
                grid@.len() == 200,
                t < 7,
                rot < 4,
                row + spec_fill_rows(t as int, rot as int) <= 20,
                col + spec_fill_cols(t as int, rot as int) <= 10,
                frows == spec_fill_rows(t as int, rot as int),
                fcols == spec_fill_cols(t as int, rot as int),
                mask == spec_shape(t as int, rot as int),
                c < fcols,
                r <= frows,
                forall|rr: int|
                    #![trigger shape_occupies(t as int, rot as int, rr, c as int)]
                    0 <= rr < r ==> !(shape_occupies(t as int, rot as int, rr, c as int)
                        && grid@[(rr + row) * 10 + (c + col)] != 0),
            decreases frows - r,
        {
            let occupied = (mask >> ((r * 4 + c) as u16)) & 1 == 1;
            if occupied && grid[(r + row) * 10 + (c + col)] != 0 {
                proof {
                    assert(shape_occupies(t as int, rot as int, r as int, c as int));
                }
                return true;
            }
            r = r + 1;
        }
        c = c + 1;
    }
    proof {
        assert forall|rr: int, cc: int|
            0 <= rr < frows && 0 <= cc < fcols implies !(#[trigger] shape_occupies(
            t as int,
            rot as int,
            rr,
            cc,
        ) && grid@[(rr + row) * 10 + (cc + col)] != 0) by {}
    }
    false
}

/// Every square of grid row `row` is occupied.
pub open spec fn row_full(grid: Seq<u8>, row: int) -> bool {
    forall|c: int| 0 <= c < 10 ==> #[trigger] grid[row * 10 + c] != 0
}

/// Row fullness, executable form.
fn full_row(grid: &Vec<u8>, row: usize) -> (b: bool)
    requires
        grid@.len() == 200,
        row < 20,
    ensures
        b == row_full(grid@, row as int),
{
    let mut c: usize = 0;
    while c < 10
        invariant
            grid@.len() == 200,
            row < 20,
            c <= 10,
            forall|cc: int| 0 <= cc < c ==> #[trigger] grid@[row * 10 + cc] != 0,
        decreases 10 - c,
    {
        if grid[row * 10 + c] == 0 {
            return false;
        }
        c = c + 1;
    }
    true
}

/// Clears `row`: every row above it shifts down one, and the top row
/// becomes empty.  Rows below `row` are untouched.
fn clear_row_of(grid: &mut Vec<u8>, row: usize)
    requires
        old(grid)@.len() == 200,
        row < 20,
    ensures
        final(grid)@.len() == 200,
        forall|i: int| (row + 1) * 10 <= i < 200 ==> final(grid)@[i] == old(grid)@[i],
        forall|r: int, c: int|
            1 <= r <= row && 0 <= c < 10 ==> #[trigger] final(grid)@[r * 10 + c] == old(grid)@[(r
                - 1) * 10 + c],
        forall|c: int| 0 <= c < 10 ==> #[trigger] final(grid)@[c] == 0,
{
    let mut r: usize = row;
    while r >= 1
        invariant
            grid@.len() == 200,
            row < 20,
            r <= row,
            forall|i: int| (row + 1) * 10 <= i < 200 ==> grid@[i] == old(grid)@[i],
            forall|rr: int, c: int|
                r < rr <= row && 0 <= c < 10 ==> #[trigger] grid@[rr * 10 + c] == old(grid)@[(rr
                    - 1) * 10 + c],
            forall|i: int| 0 <= i < (r + 1) * 10 ==> grid@[i] == old(grid)@[i],
        decreases r,
    {
        let mut c: usize = 0;
        while c < 10
            invariant
                grid@.len() == 200,
                1 <= r <= row < 20,
                c <= 10,
                forall|i: int| (row + 1) * 10 <= i < 200 ==> grid@[i] == old(grid)@[i],
                forall|rr: int, cc: int|
                    r < rr <= row && 0 <= cc < 10 ==> #[trigger] grid@[rr * 10 + cc] == old(
                        grid,
                    )@[(rr - 1) * 10 + cc],
                forall|i: int| 0 <= i < r * 10 ==> grid@[i] == old(grid)@[i],
                forall|cc: int|
                    0 <= cc < c ==> #[trigger] grid@[r * 10 + cc] == old(grid)@[(r - 1) * 10 + cc],
                forall|cc: int|
                    c <= cc < 10 ==> #[trigger] grid@[r * 10 + cc] == old(grid)@[r * 10 + cc],
            decreases 10 - c,
        {
            let v = grid[(r - 1) * 10 + c];
            grid.set(r * 10 + c, v);
            c = c + 1;
        }
        r = r - 1;
    }
    let mut c: usize = 0;
    while c < 10
        invariant
            grid@.len() == 200,
            row < 20,
            c <= 10,
            forall|i: int| (row + 1) * 10 <= i < 200 ==> grid@[i] == old(grid)@[i],
            forall|rr: int, cc: int|
                0 < rr <= row && 0 <= cc < 10 ==> #[trigger] grid@[rr * 10 + cc] == old(grid)@[(rr
                    - 1) * 10 + cc],
            forall|cc: int| 0 <= cc < c ==> #[trigger] grid@[cc] == 0,
        decreases 10 - c,
    {
        grid.set(c, 0);
        c = c + 1;
    }
}

/// Stamps the shape onto the grid with piece id `t + 1`; squares the
/// shape does not cover keep their value.
fn stamp_piece(grid: &mut Vec<u8>, t: usize, rot: usize, row: usize, col: usize)
    requires
        old(grid)@.len() == 200,
        t < 7,
        rot < 4,
        row + spec_fill_rows(t as int, rot as int) <= 20,
        col + spec_fill_cols(t as int, rot as int) <= 10,
    ensures
        final(grid)@.len() == 200,
        forall|i: int|
            0 <= i < 200 ==> #[trigger] final(grid)@[i] == old(grid)@[i] || final(grid)@[i] == (t
                + 1) as u8,
{
    let frows = fill_rows(t, rot);
    let fcols = fill_cols(t, rot);
    let mask = shape_bits(t, rot);
    let mut c: usize = 0;
    while c < fcols
        invariant
            grid@.len() == 200,
            t < 7,
            rot < 4,
            row + spec_fill_rows(t as int, rot as int) <= 20,
            col + spec_fill_cols(t as int, rot as int) <= 10,
            frows == spec_fill_rows(t as int, rot as int),
            fcols == spec_fill_cols(t as int, rot as int),
            c <= fcols,
            forall|i: int|
                0 <= i < 200 ==> #[trigger] grid@[i] == old(grid)@[i] || grid@[i] == (t + 1) as u8,
        decreases fcols - c,
    {
        let mut r: usize = 0;
        while r < frows
            invariant
                grid@.len() == 200,
                t < 7,
                rot < 4,
                row + spec_fill_rows(t as int, rot as int) <= 20,
                col + spec_fill_cols(t as int, rot as int) <= 10,
                frows == spec_fill_rows(t as int, rot as int),
                fcols == spec_fill_cols(t as int, rot as int),
                c < fcols,
                r <= frows,
                forall|i: int|
                    0 <= i < 200 ==> #[trigger] grid@[i] == old(grid)@[i] || grid@[i] == (t
                        + 1) as u8,
            decreases frows - r,
        {
            if (mask >> ((r * 4 + c) as u16)) & 1 == 1 {
                grid.set((r + row) * 10 + (c + col), (t + 1) as u8);
            }
            r = r + 1;
        }
        c = c + 1;
    }
}

/// Rewrites the seven deck slots starting at `start` to a random
/// permutation-style refill of the piece ids 0 through 6
/// (Fisher-Yates on a freshly filled bag).
fn shuffle_bag(deck: &mut Vec<usize>, rng: &mut rand::rngs::SmallRng, start: usize)
    requires
        old(deck)@.len() == 14,
        start == 0 || start == 7,
    ensures
        final(deck)@.len() == 14,
        forall|i: int| start <= i < start + 7 ==> #[trigger] final(deck)@[i] < 7,
        forall|i: int|
            0 <= i < 14 && !(start <= i < start + 7) ==> #[trigger] final(deck)@[i] == old(
                deck,
            )@[i],
{
    let mut i: usize = 0;
    while i < 7
        invariant
            deck@.len() == 14,
            start == 0 || start == 7,
            i <= 7,
            forall|j: int| start <= j < start + i ==> #[trigger] deck@[j] < 7,
            forall|j: int|
                0 <= j < 14 && !(start <= j < start + i) ==> #[trigger] deck@[j] == old(deck)@[j],
        decreases 7 - i,
    {
        deck.set(start + i, i);
        i = i + 1;
    }
    let mut k: usize = 6;
    while k >= 1
        invariant
            deck@.len() == 14,
            start == 0 || start == 7,
            k <= 6,
            forall|j: int| start <= j < start + 7 ==> #[trigger] deck@[j] < 7,
            forall|j: int|
                0 <= j < 14 && !(start <= j < start + 7) ==> #[trigger] deck@[j] == old(deck)@[j],
        decreases k,
    {
        let j = rng_below_inclusive(rng, k);
        let a = deck[start + k];
        let b = deck[start + j];
        deck.set(start + k, b);
        deck.set(start + j, a);
        k = k - 1;
    }
}

/// Score for clearing `n` lines at once.
pub open spec fn spec_score_combo(n: int) -> int {
    if n <= 0 {
        0
    } else if n == 1 {
        100
    } else if n == 2 {
        300
    } else if n == 3 {
        500
    } else {
        1000
    }
}

/// Score for clearing `n` lines at once, executable form.
fn score_combo(n: u32) -> (s: usize)
    requires
        n <= 4,
    ensures
        s == spec_score_combo(n as int),
        s <= 1000,
{
    if n == 0 {
        0
    } else if n == 1 {
        100
    } else if n == 2 {
        300
    } else if n == 3 {
        500
    } else {
        1000
    }
}

/// Reward for clearing `n` lines at once, in centi-units.
pub open spec fn spec_reward_combo(n: int) -> int {
    if n <= 0 {
        0
    } else if n == 1 {
        10
    } else if n == 2 {
        30
    } else if n == 3 {
        50
    } else {
        100
    }
}

/// Reward for clearing `n` lines at once, executable form.
fn reward_combo(n: u32) -> (s: i64)
    requires
        n <= 4,
    ensures
        s == spec_reward_combo(n as int),
        0 <= s <= 100,
{
    if n == 0 {
        0
    } else if n == 1 {
        10
    } else if n == 2 {
        30
    } else if n == 3 {
        50
    } else {
        100
    }
}

/// A tetris episode: the playfield, the falling tetromino, the
/// two-bag deck, the hold slot, the seedable generator that shuffles
/// the bags, and the episode statistics.
#[derive(Debug)]
pub struct Tetris {
    rewards: i64,
    is_terminal: bool,
    grid: Vec<u8>,
    rng: rand::rngs::SmallRng,
    tick: usize,
    tick_fall: usize,
    ticks_per_fall: usize,
    score: usize,
    can_swap: bool,
    tetromino_deck: Vec<usize>,
    hold_tetromino: Option<usize>,
    cur_position_in_deck: usize,
    cur_tetromino: usize,
    cur_tetromino_row: usize,
    cur_tetromino_col: usize,
    cur_tetromino_rot: usize,
    ep_return: i64,
    lines_deleted: u32,
    count_combos: u32,
    game_level: u32,
    atn_count_hard_drop: u32,
    atn_count_soft_drop: u32,
    atn_count_rotate: u32,
    atn_count_hold: u32,
    tetromino_counts: Vec<u32>,
}

impl Tetris {
    /// The playfield, deck and falling piece are structurally sound:
    /// every index stays inside its container and the piece inside the
    /// playfield.
    pub closed spec fn piece_ok(&self) -> bool {
        &&& self.grid@.len() == 200
        &&& self.tetromino_deck@.len() == 14
        &&& forall|i: int| 0 <= i < 14 ==> #[trigger] self.tetromino_deck@[i] < 7
        &&& self.tetromino_counts@.len() == 7
        &&& self.cur_position_in_deck < 14
        &&& self.cur_tetromino < 7
        &&& self.cur_tetromino_rot < 4
        &&& self.cur_tetromino_col + spec_fill_cols(
            self.cur_tetromino as int,
            self.cur_tetromino_rot as int,
        ) <= 10
        &&& self.cur_tetromino_row + spec_fill_rows(
            self.cur_tetromino as int,
            self.cur_tetromino_rot as int,
        ) <= 20
        &&& (self.hold_tetromino matches Some(h) ==> h < 7)
    }

    /// The episode statistics stay within the bounds one step can
    /// extend: ticks are capped, per-step rewards are small, and the
    /// accumulating counters grow by a bounded amount per tick.
    pub closed spec fn stats_ok(&self) -> bool {
        &&& self.tick <= MAX_TICKS
        &&& (!self.is_terminal ==> self.tick < MAX_TICKS)
        &&& 0 <= self.rewards <= 500
        &&& 0 <= self.ep_return <= 300 * self.tick
        &&& self.score <= 2048 * self.tick
        &&& self.lines_deleted <= 8 * self.tick
        &&& self.count_combos <= 2 * self.tick
        &&& self.atn_count_hard_drop <= self.tick
        &&& self.atn_count_soft_drop <= self.tick
        &&& self.atn_count_rotate <= self.tick
        &&& self.atn_count_hold <= self.tick
        &&& forall|i: int| 0 <= i < 7 ==> #[trigger] self.tetromino_counts@[i] <= 2 * self.tick + 1
        &&& 3 <= self.ticks_per_fall <= 6
        &&& self.tick_fall < self.ticks_per_fall
    }

    /// The falling piece can move one column left.
    pub closed spec fn spec_can_go_left(&self) -> bool {
        self.cur_tetromino_col > 0 && !collides(
            self.grid@,
            self.cur_tetromino as int,
            self.cur_tetromino_rot as int,
            self.cur_tetromino_row as int,
            self.cur_tetromino_col - 1,
        )
    }

    /// The falling piece can move one column right.
    pub closed spec fn spec_can_go_right(&self) -> bool {
        self.cur_tetromino_col + spec_fill_cols(
            self.cur_tetromino as int,
            self.cur_tetromino_rot as int,
        ) < 10 && !collides(
            self.grid@,
            self.cur_tetromino as int,
            self.cur_tetromino_rot as int,
            self.cur_tetromino_row as int,
            self.cur_tetromino_col + 1,
        )
    }

    /// The falling piece can move one row down.
    pub closed spec fn spec_can_soft_drop(&self) -> bool {
        self.cur_tetromino_row + spec_fill_rows(
            self.cur_tetromino as int,
            self.cur_tetromino_rot as int,
        ) < 20 && !collides(
            self.grid@,
            self.cur_tetromino as int,
            self.cur_tetromino_rot as int,
            self.cur_tetromino_row + 1,
            self.cur_tetromino_col as int,
        )
    }

    /// The falling piece can rotate clockwise in place.
    pub closed spec fn spec_can_rotate(&self) -> bool {
        let nr = ((self.cur_tetromino_rot + 1) % 4) as int;
        &&& self.cur_tetromino_col + spec_fill_cols(self.cur_tetromino as int, nr) <= 10
        &&& self.cur_tetromino_row + spec_fill_rows(self.cur_tetromino as int, nr) <= 20
        &&& !collides(
            self.grid@,
            self.cur_tetromino as int,
            nr,
            self.cur_tetromino_row as int,
            self.cur_tetromino_col as int,
        )
    }

    /// The falling piece can be swapped with the hold slot.
    pub closed spec fn spec_can_hold(&self) -> bool {
        &&& self.can_swap
        &&& match self.hold_tetromino {
            None => true,
            Some(h) => {
                &&& self.cur_tetromino_col + spec_fill_cols(
                    h as int,
                    self.cur_tetromino_rot as int,
                ) <= 10
                &&& self.cur_tetromino_row + spec_fill_rows(
                    h as int,
                    self.cur_tetromino_rot as int,
                ) <= 20
                &&& !collides(
                    self.grid@,
                    h as int,
                    self.cur_tetromino_rot as int,
                    self.cur_tetromino_row as int,
                    self.cur_tetromino_col as int,
                )
            },
        }
    }

    /// The next deck tetromino fits at the spawn position.
    pub closed spec fn spec_can_spawn(&self) -> bool {
        !collides(
            self.grid@,
            self.tetromino_deck@[((self.cur_position_in_deck + 1) % 14) as int] as int,
            0,
            0,
            5,
        )
    }

    /// Move number `a` is currently legal: doing nothing always is,
    /// every other move exactly when its guard holds.
    pub closed spec fn spec_action_allowed(&self, a: int) -> bool {
        ||| a == 0
        ||| (a == 1 && self.spec_can_go_left())
        ||| (a == 2 && self.spec_can_go_right())
        ||| (a == 3 && self.spec_can_rotate())
        ||| (a == 4 && self.spec_can_soft_drop())
        ||| (a == 5 && self.spec_can_spawn())
        ||| (a == 6 && self.spec_can_hold())
    }

    /// The legal move numbers below `n`, in ascending order.
    pub closed spec fn allowed_upto(&self, n: int) -> Seq<usize>
        decreases n,
    {
        if n <= 0 {
            Seq::empty()
        } else if self.spec_action_allowed(n - 1) {
            self.allowed_upto(n - 1).push((n - 1) as usize)
        } else {
            self.allowed_upto(n - 1)
        }
    }

    /// `allowed_upto` lists exactly the legal move numbers below `n`.
    proof fn lemma_allowed_contains(&self, n: int)
        requires
            0 <= n <= usize::MAX,
        ensures
            forall|j: usize| #[trigger] self.allowed_upto(n).contains(j) <==> j < n
                && self.spec_action_allowed(j as int),
        decreases n,
    {
        broadcast use vstd::seq_lib::lemma_seq_contains_after_push;

        if n > 0 {
            self.lemma_allowed_contains(n - 1);
            let e = self.allowed_upto(n - 1);
            assert forall|j: usize| #[trigger] self.allowed_upto(n).contains(j) <==> (j < n
                && self.spec_action_allowed(j as int)) by {
                if self.spec_action_allowed(n - 1) {
                    assert(self.allowed_upto(n) == e.push((n - 1) as usize));
                    assert(e.push((n - 1) as usize).contains(j) <==> ((n - 1) as usize == j
                        || e.contains(j)));
                }
            }
        }
    }

    /// Two states with the same legal moves list them identically.
    proof fn lemma_allowed_upto_congruent(a: &Tetris, b: &Tetris, n: int)
        requires
            forall|i: int| #[trigger] a.spec_action_allowed(i) == b.spec_action_allowed(i),
        ensures
            a.allowed_upto(n) == b.allowed_upto(n),
        decreases n,
    {
        if n > 0 {
            Self::lemma_allowed_upto_congruent(a, b, n - 1);
        }
    }

    /// The playfield squares in row-major order: 0 for an empty
    /// square, otherwise one more than the id of the piece that fills
    /// it.
    pub closed spec fn spec_grid(&self) -> Seq<u8> {
        self.grid@
    }

    /// The legal actions of a running episode are exactly doing
    /// nothing and the moves whose guards hold.
    pub proof fn lemma_actions_are_guarded_moves(&self)
        requires
            self.inv(),
        ensures
            forall|a: usize| #[trigger] self.spec_actions().contains(a) <==> (self.spec_result()
                is None && (a == 0 || (a == 1 && self.spec_can_go_left()) || (a == 2
                && self.spec_can_go_right()) || (a == 3 && self.spec_can_rotate()) || (a == 4
                && self.spec_can_soft_drop()) || (a == 5 && self.spec_can_spawn()) || (a == 6
                && self.spec_can_hold()))),
    {
        self.lemma_allowed_contains(7);
    }

    /// The piece id stamped at `row`, `col` (plus one), or 0.
    pub fn grid_cell(&self, row: usize, col: usize) -> (v: u8)
        requires
            self.inv(),
            row < 20,
            col < 10,
        ensures
            v == self.spec_grid()[row * 10 + col],
    {
        self.grid[row * 10 + col]
    }

    /// The episode score so far.
    pub closed spec fn spec_score(&self) -> usize {
        self.score
    }

    /// The episode score so far.
    pub fn current_score(&self) -> (s: usize)
        ensures
            s == self.spec_score(),
    {
        self.score
    }

    /// The falling piece can move one column left.
    fn can_go_left(&self) -> (b: bool)
        requires
            self.piece_ok(),
        ensures
            b == self.spec_can_go_left(),
    {
        if self.cur_tetromino_col == 0 {
            return false;
        }
        !piece_collides(
            &self.grid,
            self.cur_tetromino,
            self.cur_tetromino_rot,
            self.cur_tetromino_row,
            self.cur_tetromino_col - 1,
        )
    }

    /// The falling piece can move one column right.
    fn can_go_right(&self) -> (b: bool)
        requires
            self.piece_ok(),
        ensures
            b == self.spec_can_go_right(),
    {
        let fc = fill_cols(self.cur_tetromino, self.cur_tetromino_rot);
        if self.cur_tetromino_col + fc >= 10 {
            return false;
        }
        !piece_collides(
            &self.grid,
            self.cur_tetromino,
            self.cur_tetromino_rot,
            self.cur_tetromino_row,
            self.cur_tetromino_col + 1,
        )
    }

    /// The falling piece can move one row down.
    fn can_soft_drop(&self) -> (b: bool)
        requires
            self.piece_ok(),
        ensures
            b == self.spec_can_soft_drop(),
    {
        let fr = fill_rows(self.cur_tetromino, self.cur_tetromino_rot);
        if self.cur_tetromino_row + fr >= 20 {
            return false;
        }
        !piece_collides(
            &self.grid,
            self.cur_tetromino,
            self.cur_tetromino_rot,
            self.cur_tetromino_row + 1,
            self.cur_tetromino_col,
        )
    }

    /// The falling piece can rotate clockwise in place.
    fn can_rotate(&self) -> (b: bool)
        requires
            self.piece_ok(),
        ensures
            b == self.spec_can_rotate(),
    {
        let nr = (self.cur_tetromino_rot + 1) % 4;
        if self.cur_tetromino_col + fill_cols(self.cur_tetromino, nr) > 10 {
            return false;
        }
        if self.cur_tetromino_row + fill_rows(self.cur_tetromino, nr) > 20 {
            return false;
        }
        !piece_collides(
            &self.grid,
            self.cur_tetromino,
            nr,
            self.cur_tetromino_row,
            self.cur_tetromino_col,
        )
    }

    /// The falling piece can be swapped with the hold slot.
    fn can_hold(&self) -> (b: bool)
        requires
            self.piece_ok(),
        ensures
            b == self.spec_can_hold(),
    {
        if !self.can_swap {
            return false;
        }
        let held = match self.hold_tetromino {
            None => {
                return true;
            },
            Some(h) => h,
        };
        if self.cur_tetromino_col + fill_cols(held, self.cur_tetromino_rot) > 10 {
            return false;
        }
        if self.cur_tetromino_row + fill_rows(held, self.cur_tetromino_rot) > 20 {
            return false;
        }
        !piece_collides(
            &self.grid,
            held,
            self.cur_tetromino_rot,
            self.cur_tetromino_row,
            self.cur_tetromino_col,
        )
    }

    /// The next deck tetromino fits at the spawn position.
    fn can_spawn_new_tetromino(&self) -> (b: bool)
        requires
            self.piece_ok(),
        ensures
            b == self.spec_can_spawn(),
    {
        let next = self.tetromino_deck[(self.cur_position_in_deck + 1) % 14];
        !piece_collides(&self.grid, next, 0, 0, 5)
    }

    /// Move number `a` is currently legal.
    fn action_allowed(&self, a: usize) -> (b: bool)
        requires
            self.piece_ok(),
        ensures
            b == self.spec_action_allowed(a as int),
    {
        if a == 0 {
            true
        } else if a == 1 {
            self.can_go_left()
        } else if a == 2 {
            self.can_go_right()
        } else if a == 3 {
            self.can_rotate()
        } else if a == 4 {
            self.can_soft_drop()
        } else if a == 5 {
            self.can_spawn_new_tetromino()
        } else if a == 6 {
            self.can_hold()
        } else {
            false
        }
    }

    /// Advances the deck and places its next tetromino at the spawn
    /// position, reshuffling the bag that was just exhausted.
    fn spawn_new_tetromino(&mut self)
        requires
            old(self).piece_ok(),
            forall|i: int| 0 <= i < 7 ==> #[trigger] old(self).tetromino_counts@[i] < u32::MAX,
        ensures
            final(self).piece_ok(),
            final(self).grid == old(self).grid,
            final(self).tick == old(self).tick,
            final(self).tick_fall == 0,
            final(self).ticks_per_fall == old(self).ticks_per_fall,
            final(self).score == old(self).score,
            final(self).rewards == old(self).rewards,
            final(self).ep_return == old(self).ep_return,
            final(self).lines_deleted == old(self).lines_deleted,
            final(self).count_combos == old(self).count_combos,
            final(self).game_level == old(self).game_level,
            final(self).atn_count_hard_drop == old(self).atn_count_hard_drop,
            final(self).atn_count_soft_drop == old(self).atn_count_soft_drop,
            final(self).atn_count_rotate == old(self).atn_count_rotate,
            final(self).atn_count_hold == old(self).atn_count_hold,
            final(self).hold_tetromino == old(self).hold_tetromino,
            final(self).can_swap == old(self).can_swap,
            final(self).is_terminal == old(self).is_terminal,
            final(self).cur_tetromino_rot == 0,
            final(self).cur_tetromino_col == 5,
            final(self).cur_tetromino_row == 0,
            forall|i: int|
                0 <= i < 7 ==> old(self).tetromino_counts@[i] <= #[trigger] final(self).tetromino_counts@[i] <= old(self).tetromino_counts@[i] + 1,
    {
        self.cur_position_in_deck = (self.cur_position_in_deck + 1) % DECK_SIZE;
        self.cur_tetromino = self.tetromino_deck[self.cur_position_in_deck];
        self.cur_tetromino_rot = 0;
        if self.cur_position_in_deck == 0 {
            shuffle_bag(&mut self.tetromino_deck, &mut self.rng, 7);
        } else if self.cur_position_in_deck == 7 {
            shuffle_bag(&mut self.tetromino_deck, &mut self.rng, 0);
        }
        self.cur_tetromino_col = NUM_COLS / 2;
        self.cur_tetromino_row = 0;
        self.tick_fall = 0;
        let t = self.cur_tetromino;
        let count = self.tetromino_counts[t];
        self.tetromino_counts.set(t, count + 1);
    }

    /// Freezes the falling tetromino into the grid, clears any full
    /// rows it completes (scoring the combo), and spawns the next
    /// piece; the episode ends if the next piece cannot spawn.
    fn place_tetromino(&mut self)
        requires
            old(self).piece_ok(),
            0 <= old(self).rewards <= 400,
            0 <= old(self).ep_return <= 3_000_000,
            old(self).score <= 21_000_000,
            old(self).lines_deleted <= 81_000,
            old(self).count_combos <= 21_000,
            forall|i: int| 0 <= i < 7 ==> #[trigger] old(self).tetromino_counts@[i] <= 21_000,
        ensures
            final(self).piece_ok(),
            final(self).tick == old(self).tick,
            final(self).tick_fall == 0 || final(self).tick_fall == old(self).tick_fall,
            3 <= final(self).ticks_per_fall <= 6 || final(self).ticks_per_fall == old(
                self,
            ).ticks_per_fall,
            old(self).rewards <= final(self).rewards <= old(self).rewards + 100,
            old(self).ep_return <= final(self).ep_return <= old(self).ep_return + 100,
            old(self).score <= final(self).score <= old(self).score + 1002,
            old(self).lines_deleted <= final(self).lines_deleted <= old(self).lines_deleted + 4,
            old(self).count_combos <= final(self).count_combos <= old(self).count_combos + 1,
            final(self).atn_count_hard_drop == old(self).atn_count_hard_drop,
            final(self).atn_count_soft_drop == old(self).atn_count_soft_drop,
            final(self).atn_count_rotate == old(self).atn_count_rotate,
            final(self).atn_count_hold == old(self).atn_count_hold,
            final(self).hold_tetromino == old(self).hold_tetromino,
            final(self).can_swap == true,
            old(self).is_terminal ==> final(self).is_terminal,
            forall|i: int|
                0 <= i < 7 ==> old(self).tetromino_counts@[i] <= #[trigger] final(self).tetromino_counts@[i] <= old(self).tetromino_counts@[i] + 1,
    {
        let fr = fill_rows(self.cur_tetromino, self.cur_tetromino_rot);
        let mut row_to_check = self.cur_tetromino_row + fr - 1;
        let mut lines_deleted: u32 = 0;
        self.can_swap = true;
        stamp_piece(
            &mut self.grid,
            self.cur_tetromino,
            self.cur_tetromino_rot,
            self.cur_tetromino_row,
            self.cur_tetromino_col,
        );
        let ghost pre = *self;
        let mut k: usize = 0;
        while k < fr
            invariant
                self.grid@.len() == 200,
                row_to_check < 20,
                k <= fr <= 4,
                lines_deleted <= k,
                self.rewards == pre.rewards,
                self.ep_return == pre.ep_return,
                self.score == pre.score,
                self.count_combos == pre.count_combos,
                self.lines_deleted == pre.lines_deleted,
                self.game_level == pre.game_level,
                self.ticks_per_fall == pre.ticks_per_fall,
                self.tick == pre.tick,
                self.tick_fall == pre.tick_fall,
                self.can_swap == pre.can_swap,
                self.is_terminal == pre.is_terminal,
                self.atn_count_hard_drop == pre.atn_count_hard_drop,
                self.atn_count_soft_drop == pre.atn_count_soft_drop,
                self.atn_count_rotate == pre.atn_count_rotate,
                self.atn_count_hold == pre.atn_count_hold,
                self.hold_tetromino == pre.hold_tetromino,
                self.tetromino_deck == pre.tetromino_deck,
                self.tetromino_counts == pre.tetromino_counts,
                self.cur_position_in_deck == pre.cur_position_in_deck,
                self.cur_tetromino == pre.cur_tetromino,
                self.cur_tetromino_row == pre.cur_tetromino_row,
                self.cur_tetromino_col == pre.cur_tetromino_col,
                self.cur_tetromino_rot == pre.cur_tetromino_rot,
                self.rng == pre.rng,
            decreases fr - k,
        {
            if full_row(&self.grid, row_to_check) {
                clear_row_of(&mut self.grid, row_to_check);
                lines_deleted = lines_deleted + 1;
            } else {
                row_to_check = if row_to_check > 0 {
                    row_to_check - 1
                } else {
                    0
                };
            }
            k = k + 1;
        }
        if lines_deleted > 0 {
            self.count_combos = self.count_combos + 1;
            self.lines_deleted = self.lines_deleted + lines_deleted;
            self.score = self.score + score_combo(lines_deleted);
            let combo_reward = reward_combo(lines_deleted);
            self.rewards = self.rewards + combo_reward;
            self.ep_return = self.ep_return + combo_reward;
            self.game_level = 1 + self.lines_deleted / LINES_PER_LEVEL;
            let reduction = self.game_level / 4;
            self.ticks_per_fall = if reduction >= 3 {
                3
            } else {
                6 - (reduction as usize)
            };
        }
        if self.can_spawn_new_tetromino() {
            self.spawn_new_tetromino();
        } else {
            self.is_terminal = true;
        }
    }

    /// Applies one move and advances the clock: the piece falls on its
    /// own every few ticks, and the episode ends when the tick budget
    /// runs out.  A move whose guard does not hold (on a state where
    /// it is not a legal action) leaves the board untouched.
    pub fn step(&mut self, action: Action)
        requires
            old(self).inv(),
            old(self).spec_result() is None,
        ensures
            final(self).inv(),
            final(self).measure() < old(self).measure(),
    {
        self.rewards = 0;
        self.tick = self.tick + 1;
        self.tick_fall = self.tick_fall + 1;
        match action {
            Action::Left => {
                if self.can_go_left() {
                    self.cur_tetromino_col = self.cur_tetromino_col - 1;
                }
            },
            Action::Right => {
                if self.can_go_right() {
                    self.cur_tetromino_col = self.cur_tetromino_col + 1;
                }
            },
            Action::Rotate => {
                self.atn_count_rotate = self.atn_count_rotate + 1;
                if self.can_rotate() {
                    self.cur_tetromino_rot = (self.cur_tetromino_rot + 1) % 4;
                    self.rewards = self.rewards + REWARD_ROTATE;
                    self.ep_return = self.ep_return + REWARD_ROTATE;
                }
            },
            Action::SoftDrop => {
                self.atn_count_soft_drop = self.atn_count_soft_drop + 1;
                if self.can_soft_drop() {
                    self.cur_tetromino_row = self.cur_tetromino_row + 1;
                    self.score = self.score + SCORE_SOFT_DROP;
                }
            },
            Action::Hold => {
                self.atn_count_hold = self.atn_count_hold + 1;
                if self.can_hold() {
                    let t1 = self.cur_tetromino;
                    match self.hold_tetromino {
                        None => {
                            self.spawn_new_tetromino();
                            self.hold_tetromino = Some(t1);
                            self.can_swap = false;
                        },
                        Some(t2) => {
                            self.cur_tetromino = t2;
                            self.tetromino_deck.set(self.cur_position_in_deck, t2);
                            self.hold_tetromino = Some(t1);
                            self.can_swap = false;
                            self.cur_tetromino_rot = 0;
                            self.cur_tetromino_col = NUM_COLS / 2;
                            self.cur_tetromino_row = 0;
                            self.tick_fall = 0;
                        },
                    }
                }
            },
            Action::HardDrop => {
                self.atn_count_hard_drop = self.atn_count_hard_drop + 1;
                let ghost entry = *self;
                loop
                    invariant
                        self.piece_ok(),
                        self.grid == entry.grid,
                        self.tick == entry.tick,
                        self.tick_fall == entry.tick_fall,
                        self.ticks_per_fall == entry.ticks_per_fall,
                        self.score == entry.score,
                        self.can_swap == entry.can_swap,
                        self.tetromino_deck == entry.tetromino_deck,
                        self.hold_tetromino == entry.hold_tetromino,
                        self.cur_position_in_deck == entry.cur_position_in_deck,
                        self.cur_tetromino == entry.cur_tetromino,
                        self.cur_tetromino_col == entry.cur_tetromino_col,
                        self.cur_tetromino_rot == entry.cur_tetromino_rot,
                        self.ep_return == entry.ep_return + 2 * (self.cur_tetromino_row
                            - entry.cur_tetromino_row),
                        self.rewards == entry.rewards + 2 * (self.cur_tetromino_row
                            - entry.cur_tetromino_row),
                        self.lines_deleted == entry.lines_deleted,
                        self.count_combos == entry.count_combos,
                        self.game_level == entry.game_level,
                        self.atn_count_hard_drop == entry.atn_count_hard_drop,
                        self.atn_count_soft_drop == entry.atn_count_soft_drop,
                        self.atn_count_rotate == entry.atn_count_rotate,
                        self.atn_count_hold == entry.atn_count_hold,
                        self.tetromino_counts == entry.tetromino_counts,
                        self.is_terminal == entry.is_terminal,
                        self.rng == entry.rng,
                        entry.cur_tetromino_row <= self.cur_tetromino_row,
                        entry.rewards == 0,
                        0 <= entry.ep_return <= 300 * (entry.tick - 1),
                        1 <= entry.tick <= 10000,
                        entry.score <= 20_500_000,
                        entry.lines_deleted <= 80_000,
                        entry.count_combos <= 20_000,
                        forall|i: int|
                            0 <= i < 7 ==> #[trigger] entry.tetromino_counts@[i] <= 20_000,
                    ensures
                        !self.spec_can_soft_drop(),
                    decreases 20 - self.cur_tetromino_row,
                {
                    if !self.can_soft_drop() {
                        break ;
                    }
                    self.cur_tetromino_row = self.cur_tetromino_row + 1;
                    self.rewards = self.rewards + REWARD_HARD_DROP;
                    self.ep_return = self.ep_return + REWARD_HARD_DROP;
                }
                self.score = self.score + SCORE_HARD_DROP;
                self.place_tetromino();
            },
            Action::NoOp => {},
        }
        if self.tick_fall >= self.ticks_per_fall {
            self.tick_fall = 0;
            if self.can_soft_drop() {
                self.cur_tetromino_row = self.cur_tetromino_row + 1;
            } else {
                self.place_tetromino();
            }
        }
        if self.tick >= MAX_TICKS {
            self.is_terminal = true;
        }
    }
}

/// An element-wise copy of a vector of plain values.
fn copy_vec<T: Copy>(v: &Vec<T>) -> (r: Vec<T>)
    ensures
        r@ == v@,
{
    let mut r: Vec<T> = Vec::new();
    let mut i: usize = 0;
    while i < v.len()
        invariant
            i <= v@.len(),
            r@ == v@.take(i as int),
        decreases v@.len() - i,
    {
        let x = v[i];
        r.push(x);
        proof {
            assert(r@ =~= v@.take(i + 1));
        }
        i = i + 1;
    }
    proof {
        assert(v@.take(v@.len() as int) =~= v@);
    }
    r
}

/// Relies on SmallRng's Clone: duplicates the generator state.
#[verifier::external_body]
fn clone_small_rng(rng: &rand::rngs::SmallRng) -> rand::rngs::SmallRng {
    rng.clone()
}

impl Tetris {
    /// A fresh episode whose bag shuffles derive from `seed`.
    pub fn with_seed(seed: u64) -> (t: Tetris)
        ensures
            t.inv(),
            t.spec_result() is None,
    {
        let mut grid: Vec<u8> = Vec::new();
        let mut i: usize = 0;
        while i < 200
            invariant
                grid@.len() == i,
                i <= 200,
            decreases 200 - i,
        {
            grid.push(0);
            i = i + 1;
        }
        let mut deck: Vec<usize> = Vec::new();
        let mut i: usize = 0;
        while i < 14
            invariant
                deck@.len() == i,
                i <= 14,
                forall|j: int| 0 <= j < i ==> #[trigger] deck@[j] < 7,
            decreases 14 - i,
        {
            deck.push(0);
            i = i + 1;
        }
        let mut counts: Vec<u32> = Vec::new();
        let mut i: usize = 0;
        while i < 7
            invariant
                counts@.len() == i,
                i <= 7,
            decreases 7 - i,
        {
            counts.push(0);
            i = i + 1;
        }
        let mut t = Tetris {
            rewards: 0,
            is_terminal: false,
            grid,
            rng: small_rng_from_seed(seed),
            tick: 0,
            tick_fall: 0,
            ticks_per_fall: INITIAL_TICKS_PER_FALL,
            score: 0,
            can_swap: true,
            tetromino_deck: deck,
            hold_tetromino: None,
            cur_position_in_deck: 0,
            cur_tetromino: 0,
            cur_tetromino_row: 0,
            cur_tetromino_col: 0,
            cur_tetromino_rot: 0,
            ep_return: 0,
            lines_deleted: 0,
            count_combos: 0,
            game_level: 1,
            atn_count_hard_drop: 0,
            atn_count_soft_drop: 0,
            atn_count_rotate: 0,
            atn_count_hold: 0,
            tetromino_counts: counts,
        };
        t.reset();
        t
    }

    /// A fresh episode with entropy-derived bag shuffles.
    pub fn new() -> (t: Tetris)
        ensures
            t.inv(),
            t.spec_result() is None,
    {
        Tetris::with_seed(entropy_seed())
    }

    /// Restarts the episode: clears the grid and the statistics,
    /// reshuffles both bags and spawns a first tetromino.
    pub fn reset(&mut self)
        requires
            old(self).piece_ok(),
        ensures
            final(self).inv(),
            final(self).spec_result() is None,
    {
        self.score = 0;
        self.hold_tetromino = None;
        self.tick = 0;
        self.game_level = 1;
        self.ticks_per_fall = INITIAL_TICKS_PER_FALL;
        self.tick_fall = 0;
        self.can_swap = true;
        self.is_terminal = false;
        self.rewards = 0;
        self.ep_return = 0;
        self.count_combos = 0;
        self.lines_deleted = 0;
        self.atn_count_hard_drop = 0;
        self.atn_count_soft_drop = 0;
        self.atn_count_rotate = 0;
        self.atn_count_hold = 0;
        let mut counts: Vec<u32> = Vec::new();
        let mut i: usize = 0;
        while i < 7
            invariant
                counts@.len() == i,
                i <= 7,
                forall|j: int| 0 <= j < i ==> #[trigger] counts@[j] == 0,
            decreases 7 - i,
        {
            counts.push(0);
            i = i + 1;
        }
        self.tetromino_counts = counts;
        let mut grid: Vec<u8> = Vec::new();
        let mut i: usize = 0;
        while i < 200
            invariant
                grid@.len() == i,
                i <= 200,
            decreases 200 - i,
        {
            grid.push(0);
            i = i + 1;
        }
        self.grid = grid;
        shuffle_bag(&mut self.tetromino_deck, &mut self.rng, 0);
        shuffle_bag(&mut self.tetromino_deck, &mut self.rng, 7);
        self.cur_position_in_deck = 0;
        self.cur_tetromino = self.tetromino_deck[0];
        self.cur_tetromino_rot = 0;
        self.cur_tetromino_col = 0;
        self.cur_tetromino_row = 0;
        self.spawn_new_tetromino();
    }
}

impl Game for Tetris {
    closed spec fn inv(&self) -> bool {
        self.piece_ok() && self.stats_ok()
    }

    closed spec fn spec_result(&self) -> Option<GameResult> {
        if self.is_terminal {
            Some(GameResult::End(self.rewards))
        } else {
            None
        }
    }

    closed spec fn spec_actions(&self) -> Seq<usize> {
        if self.is_terminal {
            Seq::empty()
        } else {
            self.allowed_upto(7)
        }
    }

    closed spec fn spec_player(&self) -> Player {
        Player::X
    }

    closed spec fn spec_reward(&self) -> i64 {
        self.rewards
    }

    closed spec fn measure(&self) -> nat {
        (MAX_TICKS - self.tick) as nat
    }

    proof fn lemma_well_formed(&self) {
        if !self.is_terminal {
            self.lemma_allowed_contains(7);
            assert(self.spec_action_allowed(0));
            assert(self.allowed_upto(7).contains(0usize));
        }
    }

    fn result(&self) -> (r: Option<GameResult>) {
        if self.is_terminal {
            Some(GameResult::End(self.rewards))
        } else {
            None
        }
    }

    fn allowed_actions(&self) -> (v: Vec<usize>) {
        let mut v: Vec<usize> = Vec::new();
        if self.is_terminal {
            return v;
        }
        let mut a: usize = 0;
        while a < 7
            invariant
                self.piece_ok(),
                a <= 7,
                v@ == self.allowed_upto(a as int),
            decreases 7 - a,
        {
            if self.action_allowed(a) {
                v.push(a);
            }
            a = a + 1;
        }
        v
    }

    fn current_player(&self) -> (p: Player) {
        Player::X
    }

    fn current_reward(&self) -> (r: i64) {
        self.rewards
    }

    fn step(&mut self, action: usize) -> (r: Result<(), &'static str>) {
        proof {
            self.lemma_allowed_contains(7);
        }
        if self.is_terminal {
            return Err("Game already finished");
        }
        if action >= 7 {
            return Err("Illegal action");
        }
        if !self.action_allowed(action) {
            return Err("Illegal action");
        }
        let act = Action::from_index(action);
        self.step(act);
        Ok(())
    }

    fn duplicate(&self) -> (r: Self) {
        let r = Tetris {
            rewards: self.rewards,
            is_terminal: self.is_terminal,
            grid: copy_vec(&self.grid),
            rng: clone_small_rng(&self.rng),
            tick: self.tick,
            tick_fall: self.tick_fall,
            ticks_per_fall: self.ticks_per_fall,
            score: self.score,
            can_swap: self.can_swap,
            tetromino_deck: copy_vec(&self.tetromino_deck),
            hold_tetromino: self.hold_tetromino,
            cur_position_in_deck: self.cur_position_in_deck,
            cur_tetromino: self.cur_tetromino,
            cur_tetromino_row: self.cur_tetromino_row,
            cur_tetromino_col: self.cur_tetromino_col,
            cur_tetromino_rot: self.cur_tetromino_rot,
            ep_return: self.ep_return,
            lines_deleted: self.lines_deleted,
            count_combos: self.count_combos,
            game_level: self.game_level,
            atn_count_hard_drop: self.atn_count_hard_drop,
            atn_count_soft_drop: self.atn_count_soft_drop,
            atn_count_rotate: self.atn_count_rotate,
            atn_count_hold: self.atn_count_hold,
            tetromino_counts: copy_vec(&self.tetromino_counts),
        };
        proof {
            assert(r.piece_ok() == self.piece_ok());
            assert(r.stats_ok() == self.stats_ok());
            assert forall|i: int| #[trigger] r.spec_action_allowed(i) == self.spec_action_allowed(
                i,
            ) by {
                assert(r.spec_can_go_left() == self.spec_can_go_left());
                assert(r.spec_can_go_right() == self.spec_can_go_right());
                assert(r.spec_can_soft_drop() == self.spec_can_soft_drop());
                assert(r.spec_can_rotate() == self.spec_can_rotate());
                assert(r.spec_can_hold() == self.spec_can_hold());
                assert(r.spec_can_spawn() == self.spec_can_spawn());
            }
            Tetris::lemma_allowed_upto_congruent(&r, self, 7);
        }
        r
    }
}

} // verus!
