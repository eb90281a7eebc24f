//! The three update rules. Each takes the line and one point and gives the
//! line after one step, or `None` where the step leaves the range of `Fixed`.

use vstd::prelude::*;
use crate::fixed::{fits, mul_scaled, narrow, wide_product, Fixed, SCALE};
use crate::model::{Line, Point};
use crate::random::draw_in_range;
use rand::rngs::StdRng;

verus! {

/// `line` with `dm` added to its slope and `db` to its intercept, where both
/// sums can be held.
pub open spec fn moved(line: Line, dm: int, db: int) -> Option<Line> {
    if fits(line.0@ + dm) && fits(line.1@ + db) {
        Some(Line(Fixed { raw: (line.0@ + dm) as i64 }, Fixed { raw: (line.1@ + db) as i64 }))
    } else {
        None
    }
}

/// The simple trick with the steps `step_m` and `step_b`: both parameters go
/// down by their step where the line lies above the point, and up otherwise.
pub open spec fn simple_step(line: Line, point: Point, step_m: Fixed, step_b: Fixed) -> Option<
    Line,
> {
    if line.value_at(point.0) > point.1@ {
        moved(line, -step_m@, -step_b@)
    } else {
        moved(line, step_m@, step_b@)
    }
}

/// The square trick: the intercept moves by `rate * residual`, the slope by
/// `x` times that. Both products are rounded down. The residual and the
/// intercept's move have to be in range themselves.
pub open spec fn square_step(line: Line, point: Point, rate: Fixed) -> Option<Line> {
    let db = mul_scaled(rate@, line.residual(point));
    if fits(line.residual(point)) && fits(db) {
        moved(line, mul_scaled(db, point.0@), db)
    } else {
        None
    }
}

/// The absolute trick: the intercept moves by `rate`, the slope by `rate * x`
/// rounded down; up where the point lies above the line, down otherwise.
pub open spec fn absolute_step(line: Line, point: Point, rate: Fixed) -> Option<Line> {
    let dm = mul_scaled(rate@, point.0@);
    if line.residual(point) > 0 {
        moved(line, dm, rate@)
    } else {
        moved(line, -dm, -rate@)
    }
}

/// One of the three rules, with what it is tuned by.
#[derive(Clone, Copy, Debug, PartialEq, Eq, Structural)]
pub enum UpdateRule {
    /// The simple trick. Each step is `step_lo` where `step_lo == step_hi`, and
    /// is drawn from `step_lo..step_hi`, the upper end left out, otherwise.
    Simple { step_lo: Fixed, step_hi: Fixed },
    /// The square trick with this learning rate.
    Square { learning_rate: Fixed },
    /// The absolute trick with this learning rate.
    Absolute { learning_rate: Fixed },
}

impl UpdateRule {
    /// A simple trick needs a range of steps that is not upside down.
    pub open spec fn well_formed(self) -> bool {
        self matches UpdateRule::Simple { step_lo, step_hi } ==> step_lo@ <= step_hi@
    }

    /// Whether `step_m` and `step_b` are steps that this rule may take. Only
    /// the simple trick looks at them.
    pub open spec fn allows(self, step_m: Fixed, step_b: Fixed) -> bool {
        self matches UpdateRule::Simple { step_lo, step_hi } ==> {
            &&& step_lo@ <= step_m@
            &&& step_lo@ <= step_b@
            &&& step_lo@ < step_hi@ ==> step_m@ < step_hi@ && step_b@ < step_hi@
            &&& step_lo@ >= step_hi@ ==> step_m == step_lo && step_b == step_lo
        }
    }

    /// Whether the rule needs no random source: every step is then fixed.
    pub open spec fn is_fixed(self) -> bool {
        self matches UpdateRule::Simple { step_lo, step_hi } ==> step_lo@ >= step_hi@
    }

    /// The line after one step with the given steps.
    pub open spec fn step(self, line: Line, point: Point, step_m: Fixed, step_b: Fixed) -> Option<
        Line,
    > {
        match self {
            UpdateRule::Simple { .. } => simple_step(line, point, step_m, step_b),
            UpdateRule::Square { learning_rate } => square_step(line, point, learning_rate),
            UpdateRule::Absolute { learning_rate } => absolute_step(line, point, learning_rate),
        }
    }

    /// Whether one step from `line` at `point` can end in `after`.
    pub open spec fn reaches(self, line: Line, point: Point, after: Option<Line>) -> bool {
        exists|step_m: Fixed, step_b: Fixed|
            self.allows(step_m, step_b) && after == #[trigger] self.step(
                line,
                point,
                step_m,
                step_b,
            )
    }

    /// Whether the range of steps is in order.
    pub fn is_well_formed(&self) -> (ok: bool)
        ensures
            ok == self.well_formed(),
    {
        match self {
            UpdateRule::Simple { step_lo, step_hi } => step_lo.raw <= step_hi.raw,
            _ => true,
        }
    }

    /// One step with the steps given. The square and the absolute trick do not
    /// look at them.
    pub fn apply_with_steps(&self, line: &Line, point: &Point, step_m: Fixed, step_b: Fixed) -> (after:
        Option<Line>)
        ensures
            after == self.step(*line, *point, step_m, step_b),
    {
        match self {
            UpdateRule::Simple { .. } => simple_trick(line, point, step_m, step_b),
            UpdateRule::Square { learning_rate } => square_trick(line, point, *learning_rate),
            UpdateRule::Absolute { learning_rate } => absolute_trick(line, point, *learning_rate),
        }
    }

    /// One step, the simple trick's two steps drawn from `rng` where its range
    /// holds more than one value. Nothing is drawn otherwise.
    pub fn apply(&self, line: &Line, point: &Point, rng: &mut StdRng) -> (after: Option<Line>)
        requires
            self.well_formed(),
        ensures
            self.reaches(*line, *point, after),
            self.is_fixed() ==> after == self.step(*line, *point, self.least_step(), self.least_step()),
            self.is_fixed() ==> *final(rng) == *old(rng),
    {
        let (step_m, step_b) = match self {
            UpdateRule::Simple { step_lo, step_hi } => {
                if step_lo.raw < step_hi.raw {
                    let drawn_m: i64 = draw_in_range(rng, step_lo.raw, step_hi.raw);
                    let drawn_b: i64 = draw_in_range(rng, step_lo.raw, step_hi.raw);
                    (Fixed { raw: drawn_m }, Fixed { raw: drawn_b })
                } else {
                    (*step_lo, *step_lo)
                }
            },
            _ => (Fixed { raw: 0 }, Fixed { raw: 0 }),
        };
        self.apply_with_steps(line, point, step_m, step_b)
    }

    /// The smallest step of a simple trick; zero for the other rules, which
    /// have no steps.
    pub open spec fn least_step(self) -> Fixed {
        match self {
            UpdateRule::Simple { step_lo, .. } => step_lo,
            _ => Fixed { raw: 0 },
        }
    }
}

/// `moved`, computed.
fn shifted(line: &Line, dm: i128, db: i128) -> (after: Option<Line>)
    requires
        -0x4_0000_0000_0000_0000_0000_0000 <= dm <= 0x4_0000_0000_0000_0000_0000_0000,
        -0x4_0000_0000_0000_0000_0000_0000 <= db <= 0x4_0000_0000_0000_0000_0000_0000,
    ensures
        after == moved(*line, dm as int, db as int),
{
    let slope = narrow((line.0.raw as i128) + dm);
    let intercept = narrow((line.1.raw as i128) + db);
    match (slope, intercept) {
        (Some(m), Some(b)) => Some(Line(m, b)),
        _ => None,
    }
}

/// The simple trick: looks only at the side of the line that the point lies
/// on, and moves both parameters by their step toward it.
pub fn simple_trick(line: &Line, point: &Point, step_m: Fixed, step_b: Fixed) -> (after: Option<
    Line,
>)
    ensures
        after == simple_step(*line, *point, step_m, step_b),
{
    if line.wide_value_at(point.0) > (point.1.raw as i128) {
        shifted(line, -(step_m.raw as i128), -(step_b.raw as i128))
    } else {
        shifted(line, step_m.raw as i128, step_b.raw as i128)
    }
}

/// The square trick: one step of gradient descent on the squared error at
/// `point`. A point that lies on the line leaves the line as it is.
pub fn square_trick(line: &Line, point: &Point, learning_rate: Fixed) -> (after: Option<Line>)
    ensures
        after == square_step(*line, *point, learning_rate),
        line.residual(*point) == 0 ==> after == Some(*line),
{
    let residual = narrow((point.1.raw as i128) - line.wide_value_at(point.0));
    match residual {
        None => None,
        Some(r) => {
            let db: i128 = wide_product(learning_rate.raw, r.raw);
            match narrow(db) {
                None => None,
                Some(step) => {
                    let dm: i128 = wide_product(step.raw, point.0.raw);
                    proof {
                        lemma_nothing_scaled(learning_rate@, point.0@);
                    }
                    shifted(line, dm, db)
                },
            }
        },
    }
}

/// The absolute trick: one step of subgradient descent on the absolute error
/// at `point`.
pub fn absolute_trick(line: &Line, point: &Point, learning_rate: Fixed) -> (after: Option<Line>)
    ensures
        after == absolute_step(*line, *point, learning_rate),
{
    let dm: i128 = wide_product(learning_rate.raw, point.0.raw);
    let rate: i128 = learning_rate.raw as i128;
    if (point.1.raw as i128) > line.wide_value_at(point.0) {
        shifted(line, dm, rate)
    } else {
        shifted(line, -dm, -rate)
    }
}

/// A product with zero is zero, whichever side the zero stands on.
pub proof fn lemma_nothing_scaled(a: int, b: int)
    ensures
        mul_scaled(a, 0) == 0,
        mul_scaled(0, b) == 0,
{
    assert(a * 0 == 0 && 0 * b == 0) by (nonlinear_arith);
    assert(0int / (SCALE as int) == 0) by (nonlinear_arith)
        requires
            SCALE == 1_000_000_000,
    ;
}

} // verus!
