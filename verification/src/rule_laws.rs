//! What one step of a rule does to the residual at the point it was taken on.

use vstd::prelude::*;
use crate::fixed::{magnitude, mul_scaled, Fixed, SCALE};
use crate::model::{Line, Point};
use crate::rules::{absolute_step, simple_step};

verus! {

/// The least by which the line's value at `x` goes up when the slope goes up
/// by `dm` and the intercept by `db`. Rounding can add one raw unit to it.
pub open spec fn shift_floor(dm: int, db: int, x: Fixed) -> int {
    mul_scaled(dm, x@) + db
}

/// Whether a shift of the line's value by `low` or by `low + 1` goes toward
/// the point and at most as far beyond it as the line was short of it.
pub open spec fn approaches(residual: int, low: int) -> bool {
    if residual > 0 {
        0 <= low && low + 1 <= 2 * residual
    } else {
        residual < 0 && low + 1 <= 0 && 2 * residual <= low
    }
}

/// The least shift of the simple trick with the steps `step_m` and `step_b`.
pub open spec fn simple_shift(line: Line, point: Point, step_m: Fixed, step_b: Fixed) -> int {
    if line.value_at(point.0) > point.1@ {
        shift_floor(-step_m@, -step_b@, point.0)
    } else {
        shift_floor(step_m@, step_b@, point.0)
    }
}

/// The most by which one step of the absolute trick with the rate `rate`
/// moves the line's value at `x`.
pub open spec fn absolute_reach(rate: Fixed, x: Fixed) -> int {
    mul_scaled(mul_scaled(rate@, x@), x@) + rate@ + 1
}

/// The most by which one step of the simple trick with the steps `step_m`
/// and `step_b` moves the line's value at an `x` that is not negative.
pub open spec fn simple_reach(step_m: Fixed, step_b: Fixed, x: Fixed) -> int {
    mul_scaled(step_m@, x@) + step_b@ + 1
}

/// Rounding down splits over a sum with an error of at most one.
proof fn lemma_floor_of_sum(a: int, b: int)
    ensures
        a / (SCALE as int) + b / (SCALE as int) <= (a + b) / (SCALE as int) <= a / (SCALE as int)
            + b / (SCALE as int) + 1,
{
    let s: int = 1_000_000_000;
    assert(SCALE == s);
    assert(a / s + b / s <= (a + b) / s <= a / s + b / s + 1);
}

/// When the parameters move, the line's value at `x` moves by the least shift
/// or by one raw unit more.
pub proof fn lemma_value_shift(line: Line, after: Line, x: Fixed)
    ensures
        shift_floor(after.0@ - line.0@, after.1@ - line.1@, x) <= after.value_at(x) - line.value_at(
            x,
        ) <= shift_floor(after.0@ - line.0@, after.1@ - line.1@, x) + 1,
{
    let dm = after.0@ - line.0@;
    assert(after.0@ * x@ == line.0@ * x@ + dm * x@) by (nonlinear_arith)
        requires
            dm == after.0@ - line.0@,
    ;
    lemma_floor_of_sum(line.0@ * x@, dm * x@);
}

/// A step whose least shift approaches the point leaves the line's value on
/// the side it moved to no further from the point than it was, and moves it
/// toward the point.
pub proof fn lemma_step_toward_point(line: Line, after: Line, point: Point)
    requires
        approaches(
            line.residual(point),
            shift_floor(after.0@ - line.0@, after.1@ - line.1@, point.0),
        ),
    ensures
        magnitude(after.residual(point)) <= magnitude(line.residual(point)),
        line.residual(point) > 0 ==> after.value_at(point.0) >= line.value_at(point.0),
        line.residual(point) < 0 ==> after.value_at(point.0) <= line.value_at(point.0),
{
    lemma_value_shift(line, after, point.0);
}

/// The simple trick never takes the line further from the point it was
/// applied to, where its least shift approaches that point. Both parameters
/// move by their steps: down where the line lies above the point, up where it
/// lies below.
pub proof fn lemma_simple_trick_approaches(
    line: Line,
    point: Point,
    step_m: Fixed,
    step_b: Fixed,
    after: Line,
)
    requires
        simple_step(line, point, step_m, step_b) == Some(after),
        approaches(line.residual(point), simple_shift(line, point, step_m, step_b)),
    ensures
        magnitude(after.residual(point)) <= magnitude(line.residual(point)),
        line.residual(point) > 0 ==> after.0@ == line.0@ + step_m@ && after.1@ == line.1@ + step_b@
            && after.value_at(point.0) >= line.value_at(point.0),
        line.residual(point) < 0 ==> after.0@ == line.0@ - step_m@ && after.1@ == line.1@ - step_b@
            && after.value_at(point.0) <= line.value_at(point.0),
{
    lemma_step_toward_point(line, after, point);
}

/// At a point at or right of zero, the simple trick with steps that are not
/// negative, the intercept's at least one raw unit, never takes the line
/// further from the point, where the point is off the line and the steps are
/// small enough: where the most that one step can move the line's value at
/// the point is at most twice the residual's size.
pub proof fn lemma_simple_trick_right_of_zero(
    line: Line,
    point: Point,
    step_m: Fixed,
    step_b: Fixed,
    after: Line,
)
    requires
        simple_step(line, point, step_m, step_b) == Some(after),
        point.0@ >= 0,
        step_m@ >= 0,
        step_b@ >= 1,
        line.residual(point) != 0,
        simple_reach(step_m, step_b, point.0) <= 2 * magnitude(line.residual(point)),
    ensures
        magnitude(after.residual(point)) <= magnitude(line.residual(point)),
        line.residual(point) > 0 ==> after.value_at(point.0) > line.value_at(point.0),
        line.residual(point) < 0 ==> after.value_at(point.0) < line.value_at(point.0),
{
    let x = point.0@;
    let p = step_m@ * x;
    let s: int = 1_000_000_000;
    assert(SCALE == s);
    assert(p >= 0 && (-step_m@) * x == -p) by (nonlinear_arith)
        requires
            p == step_m@ * x,
            step_m@ >= 0,
            x >= 0,
    ;
    assert(p / s >= 0);
    assert((-p) / s <= 0);
    assert((-p) / s >= -(p / s) - 1);
    lemma_simple_trick_approaches(line, point, step_m, step_b, after);
    lemma_value_shift(line, after, point.0);
    if line.residual(point) < 0 {
        assert(after.0@ * x == line.0@ * x - p) by (nonlinear_arith)
            requires
                after.0@ == line.0@ - step_m@,
                p == step_m@ * x,
        ;
        assert((line.0@ * x - p) / s <= (line.0@ * x) / s);
    }
}

/// With a positive rate, the slope's move in the absolute trick, times `x`,
/// is never negative.
proof fn lemma_slope_move_sign(rate: int, x: int)
    requires
        rate > 0,
    ensures
        mul_scaled(rate, x) * x >= 0,
        x >= 0 ==> mul_scaled(rate, x) >= 0,
        x < 0 ==> mul_scaled(rate, x) < 0,
{
    let s: int = 1_000_000_000;
    assert(SCALE == s);
    let p = rate * x;
    assert((x >= 0 ==> p >= 0) && (x < 0 ==> p < 0)) by (nonlinear_arith)
        requires
            rate > 0,
            p == rate * x,
    ;
    let q = p / s;
    assert((x >= 0 ==> q >= 0) && (x < 0 ==> q < 0));
    assert(q * x >= 0) by (nonlinear_arith)
        requires
            (x >= 0 ==> q >= 0) && (x < 0 ==> q < 0),
    ;
}

/// The absolute trick with a positive rate never takes the line further from
/// the point it was applied to, where the point is off the line and the rate
/// is small enough: where the most that one step can move the line's value at
/// the point is at most twice the residual's size. The intercept moves toward
/// the point by the rate, and the slope by the rate times `x`.
pub proof fn lemma_absolute_trick_approaches(line: Line, point: Point, rate: Fixed, after: Line)
    requires
        absolute_step(line, point, rate) == Some(after),
        rate@ > 0,
        line.residual(point) != 0,
        absolute_reach(rate, point.0) <= 2 * magnitude(line.residual(point)),
    ensures
        magnitude(after.residual(point)) <= magnitude(line.residual(point)),
        line.residual(point) > 0 ==> after.1@ == line.1@ + rate@ && after.0@ == line.0@
            + mul_scaled(rate@, point.0@) && after.value_at(point.0) > line.value_at(point.0),
        line.residual(point) < 0 ==> after.1@ == line.1@ - rate@ && after.0@ == line.0@
            - mul_scaled(rate@, point.0@) && after.value_at(point.0) < line.value_at(point.0),
{
    let x = point.0@;
    let dm = mul_scaled(rate@, x);
    lemma_slope_move_sign(rate@, x);
    let s: int = 1_000_000_000;
    assert(SCALE == s);
    assert((dm * x) / s >= 0);
    assert((-dm) * x == -(dm * x)) by (nonlinear_arith);
    assert((-(dm * x)) / s <= 0);
    assert((-(dm * x)) / s >= -((dm * x) / s) - 1);
    lemma_value_shift(line, after, point.0);
    if line.residual(point) < 0 {
        assert(after.0@ * x == line.0@ * x - dm * x) by (nonlinear_arith)
            requires
                after.0@ == line.0@ - dm,
        ;
        assert((line.0@ * x - dm * x) / s <= (line.0@ * x) / s);
    }
}

} // verus!
