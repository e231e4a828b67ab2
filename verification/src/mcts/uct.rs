//! Fixed-point UCT (upper confidence bound for trees) scoring.
//!
//! The engine keeps rewards and visit counts as plain integers, so the
//! classic score `reward/visits + sqrt(2 ln(parentVisits) / visits)` is
//! computed here in fixed point with [`SCALE`] fractional resolution:
//! the logarithm is the integer base-2 logarithm scaled by ln(2), and
//! the square root is the integer square root of the scaled argument.
//! A child that was never visited scores as infinity, so it outranks
//! every visited sibling.
//!
//! To keep all arithmetic nonnegative, the exploitation term is shifted
//! by the constant [`MAX_ABS_REWARD`](crate::game::MAX_ABS_REWARD) (in
//! `SCALE` units): the shift is the same for every child of a parent,
//! so the ranking of siblings is unchanged.

use vstd::prelude::*;

use vstd::arithmetic::div_mod::{
    lemma_div_is_ordered, lemma_div_multiples_vanish, lemma_div_nonincreasing, lemma_div_pos_is_pos,
};
use vstd::arithmetic::logarithm::{lemma_log0, lemma_log_s, log};
use vstd::arithmetic::power2::{lemma_pow2_strictly_increases, lemma2_to64, lemma2_to64_rest, pow2};

use crate::game::MAX_ABS_REWARD;

verus! {

/// Fixed-point scale: scores carry 16 fractional bits.
pub const SCALE: u64 = 65536;

/// ln(2) in [`SCALE`] units, rounded to nearest.
pub const LN2_FP: u64 = 45426;

/// The floor of the square root of `x` (0 for negative `x`).
pub open spec fn sqrt_floor(x: int) -> int
    decreases x,
{
    if x <= 0 {
        0
    } else {
        let r = sqrt_floor(x - 1);
        if (r + 1) * (r + 1) <= x {
            r + 1
        } else {
            r
        }
    }
}

/// `sqrt_floor(x)` is the unique integer whose square is at most `x`
/// while the next square is above `x`.
pub proof fn lemma_sqrt_floor_bounds(x: int)
    requires
        x >= 0,
    ensures
        sqrt_floor(x) >= 0,
        sqrt_floor(x) * sqrt_floor(x) <= x,
        (sqrt_floor(x) + 1) * (sqrt_floor(x) + 1) > x,
    decreases x,
{
    if x > 0 {
        lemma_sqrt_floor_bounds(x - 1);
        let r = sqrt_floor(x - 1);
        if (r + 1) * (r + 1) <= x {
            assert((r + 2) * (r + 2) > x) by (nonlinear_arith)
                requires
                    r >= 0,
                    (r + 1) * (r + 1) > x - 1,
            ;
        }
    }
}

/// Any integer `r` sandwiched the same way equals `sqrt_floor(x)`.
pub proof fn lemma_sqrt_floor_unique(x: int, r: int)
    requires
        x >= 0,
        r >= 0,
        r * r <= x,
        (r + 1) * (r + 1) > x,
    ensures
        r == sqrt_floor(x),
{
    lemma_sqrt_floor_bounds(x);
    let s = sqrt_floor(x);
    assert(r == s) by (nonlinear_arith)
        requires
            r >= 0,
            s >= 0,
            r * r <= x,
            (r + 1) * (r + 1) > x,
            s * s <= x,
            (s + 1) * (s + 1) > x,
    ;
}

/// The integer square root, by binary search.
pub fn isqrt(x: u64) -> (r: u64)
    ensures
        r == sqrt_floor(x as int),
{
    let mut lo: u64 = 0;
    let mut hi: u64 = 4294967296;
    assert(hi * hi > x as int) by (nonlinear_arith)
        requires
            hi == 4294967296,
            x <= u64::MAX,
    ;
    while lo + 1 < hi
        invariant
            lo < hi <= 4294967296,
            lo * lo <= x as int,
            hi * hi > x as int,
        decreases hi - lo,
    {
        let mid = lo + (hi - lo) / 2;
        assert(lo < mid < hi);
        assert(mid * mid <= u64::MAX) by (nonlinear_arith)
            requires
                0 <= mid <= 4294967295int,
        ;
        if mid * mid <= x {
            lo = mid;
        } else {
            hi = mid;
        }
    }
    proof {
        lemma_sqrt_floor_unique(x as int, lo as int);
    }
    lo
}

/// The integer base-2 logarithm.
pub fn ilog2(x: u64) -> (r: u32)
    requires
        x >= 1,
    ensures
        r == log(2, x as int),
        r <= 63,
{
    let mut v: u64 = x;
    let mut r: u32 = 0;
    proof {
        lemma2_to64();
    }
    while v >= 2
        invariant
            v >= 1,
            x >= 1,
            log(2, x as int) == r + log(2, v as int),
            pow2(r as nat) * v <= x,
            r <= 63,
        decreases v,
    {
        proof {
            lemma_log_s(2, v as int);
            vstd::arithmetic::power2::lemma_pow2_unfold((r + 1) as nat);
            vstd::arithmetic::power2::lemma_pow2_pos(r as nat);
            assert(pow2((r + 1) as nat) * (v as int / 2) <= pow2(r as nat) * v) by (
            nonlinear_arith)
                requires
                    v >= 2,
                    pow2((r + 1) as nat) == 2 * pow2(r as nat),
                    pow2(r as nat) >= 1,
            ;
            if r + 1 > 63 {
                lemma2_to64();
                lemma2_to64_rest();
                assert(r + 1 == 64);
                assert(pow2((r + 1) as nat) * (v as int / 2) >= pow2(64)) by (nonlinear_arith)
                    requires
                        pow2((r + 1) as nat) == pow2(64),
                        v as int / 2 >= 1,
                ;
            }
        }
        v = v / 2;
        r = r + 1;
    }
    proof {
        lemma_log0(2, v as int);
    }
    r
}

/// A selection priority: infinite for a never-visited child, otherwise
/// a nonnegative fixed-point score.
#[derive(Clone, Copy, PartialEq, Eq, Structural, Debug)]
pub enum UctScore {
    Infinite,
    Finite(u64),
}

/// The (shifted) exploitation term: the average reward per visit in
/// [`SCALE`] units, shifted up by `MAX_ABS_REWARD * SCALE` so that it
/// is nonnegative whenever `|reward| <= 2 * MAX_ABS_REWARD * visits`.
pub open spec fn spec_exploit(reward: int, visits: int) -> int {
    ((reward + 2 * MAX_ABS_REWARD * visits) * SCALE) / (2 * visits)
}

/// The exploration term `sqrt(2 ln(parentVisits) / visits)` in
/// [`SCALE`] units.
pub open spec fn spec_explore(visits: int, parent_visits: int) -> int {
    sqrt_floor(((2 * (log(2, parent_visits) * LN2_FP)) / visits) * SCALE)
}

/// The selection priority of a child with the given accumulated
/// `reward` and `visits`, under a parent with `parent_visits`.
pub open spec fn spec_uct(reward: int, visits: int, parent_visits: int) -> UctScore {
    if visits == 0 {
        UctScore::Infinite
    } else {
        UctScore::Finite(
            (spec_exploit(reward, visits) + spec_explore(visits, parent_visits)) as u64,
        )
    }
}

/// Priority order: infinity on top, finite scores by value.
pub open spec fn uct_le(a: UctScore, b: UctScore) -> bool {
    match b {
        UctScore::Infinite => true,
        UctScore::Finite(y) => match a {
            UctScore::Infinite => false,
            UctScore::Finite(x) => x <= y,
        },
    }
}

/// Strict priority order.
pub open spec fn uct_lt(a: UctScore, b: UctScore) -> bool {
    uct_le(a, b) && a != b
}

/// A never-visited child has strictly higher selection priority than
/// any visited sibling, regardless of the rewards involved.
pub proof fn lemma_unvisited_preferred(
    reward_visited: int,
    visits: int,
    reward_unvisited: int,
    parent_visits: int,
)
    requires
        visits >= 1,
    ensures
        uct_lt(
            spec_uct(reward_visited, visits, parent_visits),
            spec_uct(reward_unvisited, 0, parent_visits),
        ),
{
}

/// Compares two priorities.
pub fn uct_le_exec(a: UctScore, b: UctScore) -> (r: bool)
    ensures
        r == uct_le(a, b),
{
    match b {
        UctScore::Infinite => true,
        UctScore::Finite(y) => match a {
            UctScore::Infinite => false,
            UctScore::Finite(x) => x <= y,
        },
    }
}

/// Computes the selection priority of a child.
pub fn uct_score(reward: i64, visits: u64, parent_visits: u64) -> (s: UctScore)
    requires
        visits <= u32::MAX,
        -2 * MAX_ABS_REWARD * visits <= reward <= 2 * MAX_ABS_REWARD * visits,
    ensures
        s == spec_uct(reward as int, visits as int, parent_visits as int),
{
    if visits == 0 {
        return UctScore::Infinite;
    }
    // Exploitation, shifted to be nonnegative.
    proof {
        assert(2 * MAX_ABS_REWARD * (visits as int) <= 2 * MAX_ABS_REWARD * 0xffff_ffff) by (
        nonlinear_arith)
            requires
                visits as int <= 0xffff_ffff,
        ;
    }
    let shifted: i64 = reward + 2 * MAX_ABS_REWARD * (visits as i64);
    proof {
        assert(0 <= shifted && shifted <= 4 * MAX_ABS_REWARD * (visits as int)) by (
        nonlinear_arith)
            requires
                -2 * MAX_ABS_REWARD * (visits as int) <= reward as int <= 2 * MAX_ABS_REWARD * (
                visits as int),
                shifted as int == reward as int + 2 * MAX_ABS_REWARD * (visits as int),
        ;
        assert(shifted * (SCALE as int) <= (4 * MAX_ABS_REWARD * (visits as int)) * (
        SCALE as int)) by (nonlinear_arith)
            requires
                0 <= shifted <= 4 * MAX_ABS_REWARD * (visits as int),
        ;
    }
    let num: u128 = (shifted as u128) * (SCALE as u128);
    let den: u128 = 2 * (visits as u128);
    let exploit_wide: u128 = num / den;
    proof {
        assert((4 * MAX_ABS_REWARD * (visits as int)) * (SCALE as int) == (den as int) * (2
            * MAX_ABS_REWARD * (SCALE as int))) by (nonlinear_arith)
            requires
                den == 2 * (visits as int),
        ;
        lemma_div_is_ordered(
            num as int,
            (den as int) * (2 * MAX_ABS_REWARD * (SCALE as int)),
            den as int,
        );
        lemma_div_multiples_vanish(2 * MAX_ABS_REWARD * (SCALE as int), den as int);
        lemma_div_pos_is_pos(num as int, den as int);
        assert(0 <= exploit_wide <= 2 * MAX_ABS_REWARD * (SCALE as int));
    }
    let exploit: u64 = exploit_wide as u64;
    // Exploration; the integer logarithm of 0 is 0.
    let l: u32 = if parent_visits >= 1 {
        ilog2(parent_visits)
    } else {
        proof {
            lemma_log0(2, 0);
        }
        0
    };
    let ln_fp: u64 = 2 * (l as u64) * LN2_FP;
    let q: u64 = ln_fp / visits;
    proof {
        lemma_div_nonincreasing(ln_fp as int, visits as int);
        lemma_div_pos_is_pos(ln_fp as int, visits as int);
    }
    let arg: u64 = q * SCALE;
    let explore: u64 = isqrt(arg);
    proof {
        lemma_sqrt_floor_bounds(arg as int);
        assert(explore * explore <= arg as int);
        assert(explore <= arg) by (nonlinear_arith)
            requires
                explore >= 0,
                explore * explore <= arg,
        ;
    }
    UctScore::Finite(exploit + explore)
}

} // verus!
