//! The distance between two colours.
//!
//! The Euclidean distance is the square root of `distance_squared`. The
//! square root is strictly increasing, so two distances compare as their
//! squares do, and the library measures and compares squares only: they are
//! exact integers.

use vstd::prelude::*;
use crate::color::Color;

verus! {

/// The largest value `distance_squared` can take: 3 * 255 * 255.
pub const MAX_DISTANCE_SQUARED: u32 = 195_075;

/// The square of the Euclidean distance between `a` and `b`: the sum of the
/// squared differences of the three channels.
pub open spec fn distance_squared(a: Color, b: Color) -> int {
    (a.r - b.r) * (a.r - b.r) + (a.g - b.g) * (a.g - b.g) + (a.b - b.b) * (a.b - b.b)
}

/// The square of the difference of two channels.
fn channel_gap_squared(x: u8, y: u8) -> (sq: u32)
    ensures
        sq == (x - y) * (x - y),
        sq <= 65025,
{
    let gap: u32 = if x >= y {
        (x - y) as u32
    } else {
        (y - x) as u32
    };
    assert(gap * gap == (x - y) * (x - y)) by (nonlinear_arith)
        requires
            gap == x - y || gap == y - x,
    ;
    assert(gap * gap <= 65025) by (nonlinear_arith)
        requires
            0 <= gap <= 255,
    ;
    gap * gap
}

/// Computes the square of the Euclidean distance between two colours.
pub fn euclidean_distance_squared(a: &Color, b: &Color) -> (sum: u32)
    ensures
        sum == distance_squared(*a, *b),
        sum <= MAX_DISTANCE_SQUARED,
{
    channel_gap_squared(a.r, b.r) + channel_gap_squared(a.g, b.g) + channel_gap_squared(a.b, b.b)
}

/// The distance does not depend on the order of its arguments.
pub proof fn lemma_distance_symmetric(a: Color, b: Color)
    ensures
        distance_squared(a, b) == distance_squared(b, a),
{
    assert((a.r - b.r) * (a.r - b.r) == (b.r - a.r) * (b.r - a.r)) by (nonlinear_arith);
    assert((a.g - b.g) * (a.g - b.g) == (b.g - a.g) * (b.g - a.g)) by (nonlinear_arith);
    assert((a.b - b.b) * (a.b - b.b) == (b.b - a.b) * (b.b - a.b)) by (nonlinear_arith);
}

/// The distance is never negative and never above `MAX_DISTANCE_SQUARED`.
pub proof fn lemma_distance_bounds(a: Color, b: Color)
    ensures
        0 <= distance_squared(a, b) <= MAX_DISTANCE_SQUARED,
{
    lemma_gap_bounds(a.r - b.r);
    lemma_gap_bounds(a.g - b.g);
    lemma_gap_bounds(a.b - b.b);
}

/// A colour is at distance zero from itself, and from no other colour.
pub proof fn lemma_distance_zero(a: Color, b: Color)
    ensures
        distance_squared(a, a) == 0,
        distance_squared(a, b) == 0 <==> a == b,
{
    lemma_gap_bounds(a.r - b.r);
    lemma_gap_bounds(a.g - b.g);
    lemma_gap_bounds(a.b - b.b);
}

proof fn lemma_gap_bounds(d: int)
    by (nonlinear_arith)
    requires
        -255 <= d <= 255,
    ensures
        0 <= d * d <= 65025,
        d * d == 0 <==> d == 0,
{
}

} // verus!
