//! Sample points along a target line, with bounded noise on `y`.
//!
//! The point with index `i` among `length` stands at `x = 2*i/length - 1`,
//! rounded down to a raw unit. The positions follow the number of points
//! asked for: they start at -1, never go down and stay below 1. Each is
//! rounded on its own, so nothing adds up along the way. Where more points are
//! asked for than there are raw units between -1 and 1, neighbours share a
//! position.

use vstd::prelude::*;
use vstd::arithmetic::div_mod::{
    lemma_div_is_ordered, lemma_div_plus_one, lemma_div_pos_is_pos, lemma_multiply_divide_lt,
};
use crate::fixed::{checked, magnitude, narrow, Fixed, SCALE};
use crate::model::{Line, Point};
use crate::random::draw_in_range;
use rand::rngs::StdRng;

verus! {

/// Why no points are built.
#[derive(Clone, Copy, Debug, PartialEq, Eq, Structural)]
pub enum DatasetError {
    /// The noise amplitude is negative.
    NegativeVariation,
    /// Somewhere between -1 and 1 the target line, with the noise added, may
    /// leave the range of `Fixed`.
    OutOfRange,
}

/// The `x` of the point with index `i` among `length`.
pub open spec fn grid_x(length: int, i: int) -> int {
    (2 * SCALE * i) / length - SCALE
}

/// The most that `line`, with noise of amplitude `variation` added, can be
/// away from zero between -1 and 1.
pub open spec fn band(line: Line, variation: Fixed) -> int {
    magnitude(line.0@) + magnitude(line.1@) + variation@
}

/// What is wrong with a request for points, if anything; the first that
/// applies. A request for no points at all is in order, whatever else it holds.
pub open spec fn dataset_error(line: Line, length: usize, variation: Fixed) -> Option<
    DatasetError,
> {
    if length == 0 {
        None
    } else if variation@ < 0 {
        Some(DatasetError::NegativeVariation)
    } else if band(line, variation) > i64::MAX {
        Some(DatasetError::OutOfRange)
    } else {
        None
    }
}

/// Whether `point` lies no further from `line` than noise of amplitude
/// `variation` can carry it: on the line where there is no noise, and
/// otherwise from `variation` below it up to less than `variation` above it.
pub open spec fn within_noise(line: Line, point: Point, variation: Fixed) -> bool {
    &&& -variation@ <= point.1@ - line.value_at(point.0) <= variation@
    &&& variation@ > 0 ==> point.1@ - line.value_at(point.0) < variation@
    &&& variation@ == 0 ==> point.1@ == line.value_at(point.0)
}

/// The point above `x` that lies `offset` off `line`.
pub open spec fn offset_point(line: Line, x: Fixed, offset: Fixed) -> Option<Point> {
    match checked(line.value_at(x) + offset@) {
        Some(y) => Some(Point(x, y)),
        None => None,
    }
}

/// The point of `line` with index `i` among `length`.
pub open spec fn line_point(line: Line, length: int, i: int) -> Point {
    let x = Fixed { raw: grid_x(length, i) as i64 };
    Point(x, Fixed { raw: line.value_at(x) as i64 })
}

/// The `length` points of `line` without noise, in their order.
pub open spec fn line_points(line: Line, length: usize) -> Seq<Point> {
    Seq::new(length as nat, |i: int| line_point(line, length as int, i))
}

/// The positions lie from -1 up to less than 1 and never go down. They go up
/// from each to the next where there are at most as many points as raw units
/// between -1 and 1.
pub proof fn lemma_grid_increasing(length: int, i: int, j: int)
    requires
        0 <= i <= j < length,
    ensures
        -SCALE <= grid_x(length, i) <= grid_x(length, j) < SCALE,
        i < j && length <= 2 * SCALE ==> grid_x(length, i) < grid_x(length, j),
{
    let whole: int = 2_000_000_000;
    assert(whole == 2 * SCALE);
    let a = whole * i;
    let b = whole * j;
    assert(0 <= a <= b && b < length * whole && (i < j ==> a + whole <= b)) by (nonlinear_arith)
        requires
            0 <= i <= j < length,
            a == whole * i,
            b == whole * j,
            whole > 0,
    ;
    lemma_div_pos_is_pos(a, length);
    lemma_div_is_ordered(a, b, length);
    lemma_multiply_divide_lt(b, length, whole);
    if i < j && length <= whole {
        lemma_div_plus_one(a, length);
        lemma_div_is_ordered(length + a, b, length);
    }
}

/// On the interval from -1 to 1 a line stays within `|m| + |b|` of zero.
pub proof fn lemma_value_in_band(line: Line, x: Fixed)
    requires
        -SCALE <= x@ <= SCALE,
    ensures
        magnitude(line.value_at(x)) <= magnitude(line.0@) + magnitude(line.1@),
{
    let m = line.0@;
    let a = magnitude(m);
    let s: int = 1_000_000_000;
    assert(SCALE == s);
    assert(-(a * s) <= m * x@ <= a * s) by (nonlinear_arith)
        requires
            -s <= x@ <= s,
            a == magnitude(m),
    ;
    assert(-a <= (m * x@) / s <= a);
}

/// Where a line can be sampled without noise, each of its points stands at
/// its position and holds the line's value there.
pub proof fn lemma_line_points(line: Line, length: usize, i: int)
    requires
        dataset_error(line, length, Fixed { raw: 0 }) is None,
        0 <= i < length,
    ensures
        line_points(line, length)[i].0@ == grid_x(length as int, i),
        line_points(line, length)[i].1@ == line.value_at(line_points(line, length)[i].0),
        offset_point(line, line_points(line, length)[i].0, Fixed { raw: 0 }) == Some(
            line_points(line, length)[i],
        ),
{
    lemma_grid_increasing(length as int, i, i);
    lemma_value_in_band(line, Fixed { raw: grid_x(length as int, i) as i64 });
}

/// The `x` of the point with index `i` among `length`.
pub fn grid_position(length: usize, i: usize) -> (x: Fixed)
    requires
        i < length,
    ensures
        x@ == grid_x(length as int, i as int),
        -SCALE <= x@ < SCALE,
{
    proof {
        lemma_grid_increasing(length as int, i as int, i as int);
    }
    let raw: i128 = (2_000_000_000 * (i as i128)) / (length as i128) - 1_000_000_000;
    Fixed { raw: raw as i64 }
}

/// The point above `x` whose `y` is the line's value there plus `offset`;
/// `None` where that `y` is out of range.
pub fn noisy_point(target_line: &Line, x: Fixed, offset: Fixed) -> (point: Option<Point>)
    ensures
        point == offset_point(*target_line, x, offset),
{
    match narrow(target_line.wide_value_at(x) + (offset.raw as i128)) {
        Some(y) => Some(Point(x, y)),
        None => None,
    }
}

/// Whether the line with noise of this amplitude stays in range between -1 and 1.
fn band_fits(target_line: &Line, variation: Fixed) -> (ok: bool)
    requires
        variation@ >= 0,
    ensures
        ok == (band(*target_line, variation) <= i64::MAX),
{
    let slope: i128 = target_line.0.raw as i128;
    let intercept: i128 = target_line.1.raw as i128;
    let widest: i128 = (if slope < 0 {
        -slope
    } else {
        slope
    }) + (if intercept < 0 {
        -intercept
    } else {
        intercept
    }) + (variation.raw as i128);
    widest <= (i64::MAX as i128)
}

/// `length` points on `target_line`, in rising order of `x`, without noise.
/// For `length` zero that is the empty sequence.
pub fn points_on_line(target_line: &Line, length: usize) -> (r: Result<Vec<Point>, DatasetError>)
    ensures
        match r {
            Ok(points) => {
                &&& dataset_error(*target_line, length, Fixed { raw: 0 }) is None
                &&& points@ == line_points(*target_line, length)
            },
            Err(e) => dataset_error(*target_line, length, Fixed { raw: 0 }) == Some(e),
        },
{
    let mut points: Vec<Point> = Vec::new();
    if length == 0 {
        assert(points@ =~= line_points(*target_line, length));
        return Ok(points);
    }
    if !band_fits(target_line, Fixed { raw: 0 }) {
        return Err(DatasetError::OutOfRange);
    }
    let mut i: usize = 0;
    while i < length
        invariant
            i <= length,
            dataset_error(*target_line, length, Fixed { raw: 0 }) is None,
            points@.len() == i,
            forall|k: int| 0 <= k < i ==> #[trigger] points@[k] == line_point(
                *target_line,
                length as int,
                k,
            ),
        decreases length - i,
    {
        let x = grid_position(length, i);
        proof {
            lemma_line_points(*target_line, length, i as int);
        }
        match noisy_point(target_line, x, Fixed { raw: 0 }) {
            Some(point) => {
                points.push(point);
            },
            None => {
                return Err(DatasetError::OutOfRange);
            },
        }
        i = i + 1;
    }
    assert(points@ =~= line_points(*target_line, length));
    Ok(points)
}

/// `length` points along `target_line`, in rising order of `x`, each with
/// noise on its `y` drawn from `-variation..variation`.
///
/// For `length` zero that is the empty sequence, whatever the line and the
/// variation are. With `variation` zero every point lies on the line. In both
/// cases, and where an error is returned, nothing is drawn from `rng`.
pub fn build_vector(target_line: &Line, length: usize, variation: Fixed, rng: &mut StdRng) -> (r:
    Result<Vec<Point>, DatasetError>)
    ensures
        match r {
            Ok(points) => {
                &&& dataset_error(*target_line, length, variation) is None
                &&& points@.len() == length
                &&& forall|i: int|
                    0 <= i < length ==> (#[trigger] points@[i]).0@ == grid_x(length as int, i)
                &&& forall|i: int|
                    0 <= i < length ==> -SCALE <= (#[trigger] points@[i]).0@ < SCALE
                &&& forall|i: int|
                    0 <= i < length ==> within_noise(
                        *target_line,
                        #[trigger] points@[i],
                        variation,
                    )
                &&& forall|i: int, j: int|
                    0 <= i <= j < length ==> (#[trigger] points@[i]).0@ <= (
                    #[trigger] points@[j]).0@
                &&& variation@ == 0 ==> points@ == line_points(*target_line, length)
            },
            Err(e) => dataset_error(*target_line, length, variation) == Some(e),
        },
        length == 0 ==> r is Ok,
        length == 0 || variation@ == 0 || r is Err ==> *final(rng) == *old(rng),
{
    if length == 0 {
        return Ok(Vec::new());
    }
    if variation.raw < 0 {
        return Err(DatasetError::NegativeVariation);
    }
    if !band_fits(target_line, variation) {
        return Err(DatasetError::OutOfRange);
    }
    if variation.raw == 0 {
        let exact = points_on_line(target_line, length);
        proof {
            let on_line = line_points(*target_line, length);
            assert forall|a: int| 0 <= a < length implies (#[trigger] on_line[a]).0@ == grid_x(
                length as int,
                a,
            ) && -SCALE <= on_line[a].0@ < SCALE && within_noise(
                *target_line,
                on_line[a],
                variation,
            ) by {
                lemma_line_points(*target_line, length, a);
                lemma_grid_increasing(length as int, a, a);
            }
            assert forall|a: int, b: int| 0 <= a <= b < length implies (#[trigger] on_line[a]).0@
                <= (#[trigger] on_line[b]).0@ by {
                lemma_line_points(*target_line, length, a);
                lemma_line_points(*target_line, length, b);
                lemma_grid_increasing(length as int, a, b);
            }
        }
        return exact;
    }
    let mut points: Vec<Point> = Vec::new();
    let mut i: usize = 0;
    while i < length
        invariant
            i <= length,
            variation@ > 0,
            band(*target_line, variation) <= i64::MAX,
            points@.len() == i,
            forall|k: int|
                0 <= k < i ==> (#[trigger] points@[k]).0@ == grid_x(length as int, k),
            forall|k: int|
                0 <= k < i ==> within_noise(*target_line, #[trigger] points@[k], variation),
        decreases length - i,
    {
        let x = grid_position(length, i);
        let offset = Fixed { raw: draw_in_range(rng, -variation.raw, variation.raw) };
        proof {
            lemma_value_in_band(*target_line, x);
        }
        match noisy_point(target_line, x, offset) {
            Some(point) => {
                points.push(point);
            },
            None => {
                return Err(DatasetError::OutOfRange);
            },
        }
        i = i + 1;
    }
    proof {
        assert forall|a: int, b: int| 0 <= a <= b < length implies (#[trigger] points@[a]).0@ <= (
        #[trigger] points@[b]).0@ by {
            lemma_grid_increasing(length as int, a, b);
        }
        assert forall|a: int| 0 <= a < length implies -SCALE <= (#[trigger] points@[a]).0@
            < SCALE by {
            lemma_grid_increasing(length as int, a, a);
        }
    }
    Ok(points)
}

} // verus!
