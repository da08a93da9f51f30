//! Key positions and the distance between them.
//!
//! A key sits at an integer (column, row) position. The distance between two
//! keys is the Euclidean distance between their positions, held in fixed
//! point: `floor(sqrt(d) * SCALE)` where `d` is the integer squared distance.

use vstd::prelude::*;
use crate::sqrt::is_sqrt_floor;
use crate::sqrt::isqrt;
use crate::sqrt::lemma_sqrt_floor_bound;
use crate::sqrt::lemma_sqrt_floor_exists;
use crate::sqrt::sqrt_floor;

verus! {

/// Fixed-point scale: distances are stored multiplied by this factor.
pub const SCALE: u64 = 1048576;

/// `SCALE * SCALE`, the factor applied to squared distances before the
/// square root.
pub const SCALE_SQ: u64 = 1099511627776;

/// Coordinates may not exceed this magnitude, which keeps every distance
/// computation comfortably inside 64 bits.
pub const COORD_LIMIT: i64 = 256;

/// A key's position on the keyboard: column (`x`) and row (`y`) indices.
#[derive(Clone, Copy, PartialEq, Eq, Structural, Hash, Debug)]
pub struct Point {
    pub x: i64,
    pub y: i64,
}

/// The squared Euclidean distance between two positions.
pub open spec fn sq_dist(a: Point, b: Point) -> int {
    (a.x - b.x) * (a.x - b.x) + (a.y - b.y) * (a.y - b.y)
}

/// The fixed-point Euclidean distance between two positions.
pub open spec fn scaled_dist(a: Point, b: Point) -> int {
    sqrt_floor(sq_dist(a, b) * (SCALE_SQ as int))
}

/// Whether a position's coordinates are within the supported range.
pub open spec fn in_range(p: Point) -> bool {
    -COORD_LIMIT <= p.x <= COORD_LIMIT && -COORD_LIMIT <= p.y <= COORD_LIMIT
}

/// Squared distances of in-range positions stay below `2^20`.
pub proof fn lemma_sq_dist_bounds(a: Point, b: Point)
    requires
        in_range(a),
        in_range(b),
    ensures
        0 <= sq_dist(a, b) < 1048576,
{
    let dx = a.x - b.x;
    let dy = a.y - b.y;
    assert(0 <= dx * dx <= 512 * 512) by (nonlinear_arith)
        requires -512 <= dx <= 512;
    assert(0 <= dy * dy <= 512 * 512) by (nonlinear_arith)
        requires -512 <= dy <= 512;
}

/// Fixed-point distances of in-range positions stay below `2^30`.
pub proof fn lemma_scaled_dist_bounds(a: Point, b: Point)
    requires
        in_range(a),
        in_range(b),
    ensures
        0 <= scaled_dist(a, b) < 1073741824,
{
    lemma_sq_dist_bounds(a, b);
    let n = sq_dist(a, b) * (SCALE_SQ as int);
    assert(0 <= n < 1073741824 * 1073741824) by (nonlinear_arith)
        requires
            0 <= sq_dist(a, b) < 1048576,
            n == sq_dist(a, b) * 1099511627776,
    ;
    lemma_sqrt_floor_exists(n);
    lemma_sqrt_floor_bound(n, 1073741824);
}

/// A position is at distance zero from itself.
pub proof fn lemma_scaled_dist_zero(a: Point)
    ensures
        scaled_dist(a, a) == 0,
{
    assert(sq_dist(a, a) == 0);
    assert(is_sqrt_floor(0, 0));
    crate::sqrt::lemma_sqrt_floor_unique(0, 0);
}

/// Distance is symmetric in its two positions.
pub proof fn lemma_scaled_dist_symmetric(a: Point, b: Point)
    ensures
        scaled_dist(a, b) == scaled_dist(b, a),
{
    assert(sq_dist(a, b) == sq_dist(b, a)) by (nonlinear_arith);
}

impl Point {
    /// Makes the position with the given coordinates.
    pub fn new(x: i64, y: i64) -> (p: Point)
        ensures
            p == (Point { x, y }),
    {
        Point { x, y }
    }

    /// The fixed-point Euclidean distance from this position to `other`.
    pub fn dist(&self, other: &Point) -> (r: u64)
        requires
            in_range(*self),
            in_range(*other),
        ensures
            r == scaled_dist(*self, *other),
    {
        proof {
            lemma_sq_dist_bounds(*self, *other);
        }
        let dx = self.x - other.x;
        let dy = self.y - other.y;
        proof {
            assert(0 <= dx * dx <= 512 * 512) by (nonlinear_arith)
                requires -512 <= dx <= 512;
            assert(0 <= dy * dy <= 512 * 512) by (nonlinear_arith)
                requires -512 <= dy <= 512;
        }
        let sq = (dx * dx + dy * dy) as u64;
        proof {
            assert((sq as int) * (SCALE_SQ as int) <= 1048576 * (SCALE_SQ as int))
                by (nonlinear_arith)
                requires 0 <= sq as int <= 1048576, SCALE_SQ == 1099511627776;
        }
        isqrt(sq * SCALE_SQ)
    }
}

} // verus!
