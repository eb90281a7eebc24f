//! The two values that everything else works on: a sample point and a line.

use vstd::prelude::*;
use crate::fixed::{checked, mul_scaled, narrow, wide_product, Fixed, SCALE};

verus! {

/// A sample: `x` first, then `y`.
#[derive(Clone, Copy, Debug, PartialEq, Eq, Structural)]
pub struct Point(pub Fixed, pub Fixed);

/// The line `y = m*x + b`: slope `m` first, then intercept `b`.
#[derive(Clone, Copy, Debug, PartialEq, Eq, Structural)]
pub struct Line(pub Fixed, pub Fixed);

impl Line {
    /// The raw value of `m*x + b`, the product rounded down to a raw unit.
    pub open spec fn value_at(self, x: Fixed) -> int {
        mul_scaled(self.0@, x@) + self.1@
    }

    /// What is left of `point.y` above the line.
    pub open spec fn residual(self, point: Point) -> int {
        point.1@ - self.value_at(point.0)
    }

    /// `value_at` at full width: it cannot overflow there.
    pub(crate) fn wide_value_at(&self, x: Fixed) -> (v: i128)
        ensures
            v == self.value_at(x),
            -0x4_0000_0000_0000_0000_0000_0000 <= v <= 0x4_0000_0000_0000_0000_0000_0000,
    {
        wide_product(self.0.raw, x.raw) + (self.1.raw as i128)
    }

    /// The line's value at `x`, or `None` where that value is out of range.
    pub fn predicted_y(&self, x: Fixed) -> (y: Option<Fixed>)
        ensures
            y == checked(self.value_at(x)),
    {
        narrow(self.wide_value_at(x))
    }
}

/// Where `m*x` is a whole number of raw units, `predicted_y` is `m*x + b` with
/// nothing rounded away.
pub proof fn lemma_predicted_y_exact(line: Line, x: Fixed)
    requires
        (line.0@ * x@) % (SCALE as int) == 0,
    ensures
        line.value_at(x) * SCALE == line.0@ * x@ + line.1@ * SCALE,
{
    let p = line.0@ * x@;
    assert(p == (SCALE as int) * (p / (SCALE as int)) + p % (SCALE as int)) by {
        vstd::arithmetic::div_mod::lemma_fundamental_div_mod(p, SCALE as int);
    }
}

} // verus!
