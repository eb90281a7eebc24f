//! How well a line fits a sequence of points.
//!
//! Distances are summed as they are. Their squares are summed at full width
//! and rounded once, at the end, so that distances far below one still count.

use vstd::prelude::*;
use crate::fixed::{floor_root, is_floor_root, magnitude, Fixed, SCALE};
use crate::model::{Line, Point};

verus! {

/// The five figures that `test_line` reports.
#[derive(Clone, Copy, Debug, PartialEq, Eq, Structural)]
pub struct Metrics {
    /// The sum of the points' distances from the line.
    pub absolute_error: Fixed,
    /// The sum of the squares of those distances, rounded down.
    pub square_error: Fixed,
    /// `absolute_error` divided by the number of points, rounded down.
    pub mean_absolute_error: Fixed,
    /// `square_error` divided by the number of points, rounded down.
    pub mean_square_error: Fixed,
    /// The square root of the mean of the squares, taken before that mean is
    /// rounded to a raw unit, and rounded down.
    pub rmse: Fixed,
}

/// Why `test_line` reports nothing.
#[derive(Clone, Copy, Debug, PartialEq, Eq, Structural)]
pub enum EvalError {
    /// There is no point to measure against.
    NoPoints,
    /// The sum of the distances, or that of their squares, is too large to
    /// hold. A single distance of about 96 039 is enough for that: its square
    /// is above the largest `Fixed`.
    OutOfRange,
}

/// The vertical distance of `point` from `line`.
pub open spec fn abs_error(line: Line, point: Point) -> int {
    magnitude(line.value_at(point.0) - point.1@)
}

/// The distances of the first `n` points, added up.
pub open spec fn total_abs(line: Line, points: Seq<Point>, n: nat) -> int
    decreases n,
{
    if n == 0 {
        0
    } else {
        total_abs(line, points, (n - 1) as nat) + abs_error(line, points[n - 1])
    }
}

/// The squares of the distances of the first `n` points, added up with
/// nothing rounded: in squares of raw units.
pub open spec fn sum_of_squares(line: Line, points: Seq<Point>, n: nat) -> int
    decreases n,
{
    if n == 0 {
        0
    } else {
        sum_of_squares(line, points, (n - 1) as nat) + abs_error(line, points[n - 1]) * abs_error(
            line,
            points[n - 1],
        )
    }
}

/// Both sums only grow as points are added.
pub proof fn lemma_totals_grow(line: Line, points: Seq<Point>, i: nat, n: nat)
    requires
        i <= n,
    ensures
        0 <= total_abs(line, points, i) <= total_abs(line, points, n),
        0 <= sum_of_squares(line, points, i) <= sum_of_squares(line, points, n),
    decreases n,
{
    if n > 0 {
        let d = abs_error(line, points[n - 1]);
        assert(0 <= d * d) by (nonlinear_arith);
        if i == n {
            lemma_totals_grow(line, points, (n - 1) as nat, (n - 1) as nat);
        } else {
            lemma_totals_grow(line, points, i, (n - 1) as nat);
        }
    }
}

/// The square of the sum of the distances is at most the number of points
/// times the sum of their squares.
pub proof fn lemma_square_of_total(line: Line, points: Seq<Point>, n: nat)
    ensures
        total_abs(line, points, n) * total_abs(line, points, n) <= n * sum_of_squares(
            line,
            points,
            n,
        ),
    decreases n,
{
    if n == 0 {
        assert(0int * 0int <= 0int * 0int) by (nonlinear_arith);
    } else {
        let k = (n - 1) as int;
        let s = total_abs(line, points, k as nat);
        let q = sum_of_squares(line, points, k as nat);
        let d = abs_error(line, points[k]);
        lemma_square_of_total(line, points, k as nat);
        lemma_totals_grow(line, points, k as nat, k as nat);
        assert(2 * (s * d) <= q + k * (d * d)) by (nonlinear_arith)
            requires
                s * s <= k * q,
                0 <= s,
                0 <= d,
                0 <= k,
                0 <= q,
        {
            if k == 0 {
                assert(s == 0);
            } else {
                assert(0 <= (s - k * d) * (s - k * d));
                assert((s - k * d) * (s - k * d) == s * s - 2 * k * (s * d) + k * k * (d * d));
                assert(k * (2 * (s * d)) <= k * q + k * (k * (d * d)));
                assert(k * (2 * (s * d)) <= k * (q + k * (d * d)));
            }
        }
        assert((s + d) * (s + d) <= (k + 1) * (q + d * d)) by (nonlinear_arith)
            requires
                2 * (s * d) <= q + k * (d * d),
                s * s <= k * q,
        ;
    }
}

/// Where the square of a mean, times the count, is at most a sum, the mean is
/// at most the square root of that sum's mean, both rounded down.
proof fn lemma_mean_below_root(total: int, squares: int, n: int, root: int)
    requires
        n >= 1,
        0 <= total,
        total * total <= n * squares,
        is_floor_root(root, squares / n),
    ensures
        total / n <= root,
{
    let mean = total / n;
    let q = squares / n;
    assert(0 <= mean && mean * n <= total && q * n + n > squares) by (nonlinear_arith)
        requires
            n >= 1,
            0 <= total,
            mean == total / n,
            q == squares / n,
    ;
    assert(mean * mean <= q) by (nonlinear_arith)
        requires
            n >= 1,
            0 <= mean,
            mean * n <= total,
            total * total <= n * squares,
            q * n + n > squares,
    {
        assert((mean * n) * (mean * n) <= total * total);
        assert((mean * n) * (mean * n) == (mean * mean * n) * n);
        assert((mean * mean * n) * n <= squares * n);
        assert(mean * mean * n <= squares);
        assert(mean * mean * n < (q + 1) * n);
    }
    assert(mean <= root) by (nonlinear_arith)
        requires
            0 <= mean,
            0 <= root,
            mean * mean <= q,
            q < (root + 1) * (root + 1),
    ;
}

/// Measures `line` against `points` in one pass.
///
/// Both sums are exact; the sum of the squares is rounded down once. They are
/// reported only where both fit. With no point there is no mean, and nothing
/// is reported either. The mean distance is never above the root of the
/// mean square.
pub fn test_line(line: &Line, points: &[Point]) -> (r: Result<Metrics, EvalError>)
    ensures
        match r {
            Ok(m) => {
                &&& points@.len() > 0
                &&& m.absolute_error@ == total_abs(*line, points@, points@.len())
                &&& m.square_error@ == sum_of_squares(*line, points@, points@.len()) / (
                SCALE as int)
                &&& m.mean_absolute_error@ == m.absolute_error@ / (points@.len() as int)
                &&& m.mean_square_error@ == m.square_error@ / (points@.len() as int)
                &&& is_floor_root(
                    m.rmse@,
                    sum_of_squares(*line, points@, points@.len()) / (points@.len() as int),
                )
                &&& m.mean_absolute_error@ <= m.rmse@
            },
            Err(EvalError::NoPoints) => points@.len() == 0,
            Err(EvalError::OutOfRange) => {
                &&& points@.len() > 0
                &&& (total_abs(*line, points@, points@.len()) > i64::MAX || sum_of_squares(
                    *line,
                    points@,
                    points@.len(),
                ) / (SCALE as int) > i64::MAX)
            },
        },
{
    let n: usize = points.len();
    if n == 0 {
        return Err(EvalError::NoPoints);
    }
    let limit: i128 = i64::MAX as i128;
    // the largest sum of squares that still rounds down to a value in range
    let square_limit: i128 = 9_223_372_036_854_775_807_999_999_999;
    let mut abs_sum: i128 = 0;
    let mut square_sum: i128 = 0;
    let mut i: usize = 0;
    while i < n
        invariant
            n == points@.len(),
            i <= n,
            limit == i64::MAX,
            square_limit == 9_223_372_036_854_775_807_999_999_999,
            abs_sum == total_abs(*line, points@, i as nat),
            square_sum == sum_of_squares(*line, points@, i as nat),
            0 <= abs_sum <= limit,
            0 <= square_sum <= square_limit,
        decreases n - i,
    {
        let point: Point = points[i];
        let gap: i128 = line.wide_value_at(point.0) - (point.1.raw as i128);
        let distance: i128 = if gap < 0 {
            -gap
        } else {
            gap
        };
        proof {
            lemma_totals_grow(*line, points@, (i + 1) as nat, n as nat);
        }
        if distance > limit {
            return Err(EvalError::OutOfRange);
        }
        assert(0 <= distance * distance <= 0x4000_0000_0000_0000_0000_0000_0000_0000)
            by (nonlinear_arith)
            requires
                0 <= distance <= 0x7fff_ffff_ffff_ffff,
        ;
        abs_sum = abs_sum + distance;
        square_sum = square_sum + distance * distance;
        if abs_sum > limit || square_sum > square_limit {
            return Err(EvalError::OutOfRange);
        }
        i = i + 1;
    }
    let count: i128 = n as i128;
    let square_error: i128 = square_sum / 1_000_000_000;
    let mean_abs: i128 = abs_sum / count;
    let mean_square: i128 = square_error / count;
    let mean_wide: i128 = square_sum / count;
    assert(0 <= mean_abs <= abs_sum && 0 <= mean_square <= square_error && 0 <= mean_wide
        <= square_sum) by (nonlinear_arith)
        requires
            count >= 1,
            0 <= abs_sum,
            0 <= square_error,
            0 <= square_sum,
            mean_abs == abs_sum / count,
            mean_square == square_error / count,
            mean_wide == square_sum / count,
    ;
    let rmse = floor_root(mean_wide);
    proof {
        lemma_square_of_total(*line, points@, n as nat);
        lemma_mean_below_root(abs_sum as int, square_sum as int, n as int, rmse@);
    }
    Ok(
        Metrics {
            absolute_error: Fixed { raw: abs_sum as i64 },
            square_error: Fixed { raw: square_error as i64 },
            mean_absolute_error: Fixed { raw: mean_abs as i64 },
            mean_square_error: Fixed { raw: mean_square as i64 },
            rmse,
        },
    )
}

} // verus!
