//! The shared output type of every generator, its error type, and the
//! fixed-point arithmetic the generators are built on.

use vstd::prelude::*;
use vstd::arithmetic::div_mod::{lemma_div_is_ordered, lemma_div_pos_is_pos, lemma_div_by_multiple};

verus! {

/// Number of ticks in one unit of time or intensity. A fixed-point value `v`
/// stands for the real quantity `v / SCALE`.
pub const SCALE: i64 = 1_000_000;

/// One simulated occurrence: its time, the process intensity at (or just
/// after) it, and, for marked processes, the jump size attached to it.
#[derive(Clone, Copy, Debug, PartialEq, Eq)]
pub struct Event {
    /// Time of occurrence, in ticks, within `[0, tmax]` of the run.
    pub timestamp: i64,
    /// Process intensity associated with the event, in ticks.
    pub intensity: i64,
    /// Jump (excitation) size, present for the Hawkes variants.
    pub mark: Option<i64>,
}

/// How one simulation call fails. Both conditions are contract violations of
/// the caller: nothing is retried.
#[derive(Clone, Copy, Debug, PartialEq, Eq)]
pub enum SimError {
    /// A rate, decay, horizon or baseline-intensity parameter is negative.
    InvalidParameter,
    /// The exact Hawkes algorithm accepted an event before the horizon but the
    /// supplied jump sequence had no value left. The run aborts at that step.
    JumpsExhausted,
}

/// The fraction `u / SCALE` applied to `x`, rounded down.
pub open spec fn scaled(u: int, x: int) -> int {
    u * x / (SCALE as int)
}

/// Bounds of `scaled`: it maps `[0, SCALE] x [0, x]` into `[0, x]`, and a
/// proper fraction of a positive quantity stays strictly below it.
pub proof fn lemma_scaled_bounds(u: int, x: int)
    requires
        0 <= u <= SCALE,
        0 <= x,
    ensures
        0 <= scaled(u, x) <= x,
        u < SCALE && 0 < x ==> scaled(u, x) < x,
{
    let s = SCALE as int;
    assert(0 <= u * x) by (nonlinear_arith)
        requires 0 <= u && 0 <= x;
    lemma_div_pos_is_pos(u * x, s);
    assert(u * x <= s * x) by (nonlinear_arith)
        requires u <= s && 0 <= x;
    lemma_div_is_ordered(u * x, s * x, s);
    lemma_div_by_multiple(x, s);
    assert(s * x == x * s) by (nonlinear_arith);
    if u < SCALE && 0 < x {
        assert(u * x <= x * s - 1) by (nonlinear_arith)
            requires u <= s - 1 && 1 <= x;
        lemma_div_is_ordered(u * x, x * s - 1, s);
        lemma_round_down_below(x, s);
    }
}

/// `(x * s - 1) / s == x - 1` for positive `s`.
proof fn lemma_round_down_below(x: int, s: int)
    requires
        0 < s,
    ensures
        (x * s - 1) / s <= x - 1,
{
    assert(x * s - 1 == (x - 1) * s + (s - 1)) by (nonlinear_arith);
    lemma_div_general((x - 1), s, s - 1);
}

/// `(q * s + r) / s == q` when `0 <= r < s`.
proof fn lemma_div_general(q: int, s: int, r: int)
    requires
        0 < s,
        0 <= r < s,
    ensures
        (q * s + r) / s == q,
{
    vstd::arithmetic::div_mod::lemma_fundamental_div_mod_converse(q * s + r, s, q, r);
}

/// Applies the fraction `u / SCALE` to `x`: returns `u * x / SCALE`.
pub fn scale_mul(u: i64, x: i64) -> (r: i64)
    requires
        0 <= u <= SCALE,
        0 <= x,
    ensures
        r == scaled(u as int, x as int),
        0 <= r <= x,
        u < SCALE && 0 < x ==> r < x,
{
    proof {
        lemma_scaled_bounds(u as int, x as int);
    }
    let wide: u128 = (u as u128) * (x as u128) / (SCALE as u128);
    wide as i64
}

} // verus!
