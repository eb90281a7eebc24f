//! What holds of every run of training.

use vstd::prelude::*;
use crate::fixed::{magnitude, Fixed};
use crate::model::{Line, Point};
use crate::rule_laws::{
    absolute_reach, lemma_absolute_trick_approaches, lemma_simple_trick_right_of_zero,
    simple_reach,
};
use crate::rules::{absolute_step, lemma_nothing_scaled, simple_step, UpdateRule};
use crate::trainer::{
    ends_as, epoch_ends, pass_goes_on, run_goes_on, step_ends, Mode, Outcome, Progress, Run,
    TrainerConfig,
};

verus! {

/// The pass over the points from index `from` on with a rule that draws
/// nothing: `None` where a step on the way leaves the range.
pub open spec fn fixed_epoch(rule: UpdateRule, points: Seq<Point>, from: int, line: Line) -> Option<
    Line,
>
    decreases points.len() - from,
{
    if from < 0 || from >= points.len() {
        Some(line)
    } else {
        match rule.step(line, points[from], rule.least_step(), rule.least_step()) {
            None => None,
            Some(l) => fixed_epoch(rule, points, from + 1, l),
        }
    }
}

/// The run of training by passes, from before the step `index` on, with a
/// rule that draws nothing.
pub open spec fn fixed_run(
    points: Seq<Point>,
    config: TrainerConfig,
    rule: UpdateRule,
    index: usize,
    line: Line,
    progress: Seq<Progress>,
) -> Run
    decreases config.budget - index,
{
    if index >= config.budget {
        Run { line, outcome: Outcome::Exhausted, steps: config.budget, progress }
    } else {
        match fixed_epoch(rule, points, 0, line) {
            None => Run { line, outcome: Outcome::Diverged { index }, steps: index, progress },
            Some(l) => if config.accepts(l) {
                Run {
                    line: l,
                    outcome: Outcome::Converged { index },
                    steps: (index + 1) as usize,
                    progress: config.noted(progress, index, l),
                }
            } else {
                fixed_run(
                    points,
                    config,
                    rule,
                    (index + 1) as usize,
                    l,
                    config.noted(progress, index, l),
                )
            },
        }
    }
}

/// The run of a budget of one step whose step has given `after`.
pub open spec fn single_step_run(
    config: TrainerConfig,
    line: Line,
    progress: Seq<Progress>,
    after: Option<Line>,
) -> Run {
    match after {
        None => Run { line, outcome: Outcome::Diverged { index: 0 }, steps: 0, progress },
        Some(l) => Run {
            line: l,
            outcome: if config.accepts(l) {
                Outcome::Converged { index: 0 }
            } else {
                Outcome::Exhausted
            },
            steps: 1,
            progress: config.noted(progress, 0, l),
        },
    }
}

/// The result of the step that a run has tried at `index`: one that the step
/// can have, and from which the run can go on to end as it does.
pub open spec fn tried(
    points: Seq<Point>,
    config: TrainerConfig,
    rule: UpdateRule,
    index: usize,
    line: Line,
    progress: Seq<Progress>,
    run: Run,
) -> Option<Line> {
    choose|after: Option<Line>| #[trigger]
        step_ends(config.mode, rule, points, line, after) && run_goes_on(
            points,
            config,
            rule,
            index,
            line,
            progress,
            after,
            run,
        )
}

/// The result of the step on the point `from` in a pass: one that the step
/// can have, and from which the pass can go on to end as it does.
pub open spec fn stepped(
    rule: UpdateRule,
    points: Seq<Point>,
    from: int,
    line: Line,
    after: Option<Line>,
) -> Option<Line> {
    choose|next: Option<Line>| #[trigger]
        rule.reaches(line, points[from], next) && pass_goes_on(rule, points, from, next, after)
}

/// A rule that draws nothing has one result at each point.
pub proof fn lemma_fixed_step(rule: UpdateRule, line: Line, point: Point, after: Option<Line>)
    requires
        rule.is_fixed(),
        rule.reaches(line, point, after),
    ensures
        after == rule.step(line, point, rule.least_step(), rule.least_step()),
{
}

/// A pass with a rule that draws nothing has one result.
pub proof fn lemma_fixed_epoch(
    rule: UpdateRule,
    points: Seq<Point>,
    from: int,
    line: Line,
    after: Option<Line>,
)
    requires
        rule.is_fixed(),
        epoch_ends(rule, points, from, line, after),
    ensures
        after == fixed_epoch(rule, points, from, line),
    decreases points.len() - from,
{
    if 0 <= from < points.len() {
        let next = stepped(rule, points, from, line, after);
        lemma_fixed_step(rule, line, points[from], next);
        if let Some(l) = next {
            lemma_fixed_epoch(rule, points, from + 1, l, after);
        }
    }
}

/// Training by passes with a rule that draws nothing is repeatable: it has
/// one run, whatever the random source holds.
pub proof fn lemma_fixed_training(
    points: Seq<Point>,
    config: TrainerConfig,
    rule: UpdateRule,
    index: usize,
    line: Line,
    progress: Seq<Progress>,
    run: Run,
)
    requires
        rule.is_fixed(),
        config.mode is Epoch,
        ends_as(points, config, rule, index, line, progress, run),
    ensures
        run == fixed_run(points, config, rule, index, line, progress),
    decreases config.budget - index,
{
    if index < config.budget {
        let after = tried(points, config, rule, index, line, progress, run);
        lemma_fixed_epoch(rule, points, 0, line, after);
        if let Some(l) = after {
            if !config.accepts(l) {
                lemma_fixed_training(
                    points,
                    config,
                    rule,
                    (index + 1) as usize,
                    l,
                    config.noted(progress, index, l),
                    run,
                );
            }
        }
    }
}

/// With an early stop that no line can meet, training never ends as
/// converged. Unless a step leaves the range, it ends as exhausted after
/// exactly as many steps as the budget holds; where one does, it ends as
/// diverged before that step.
pub proof fn lemma_unmeetable_stop(
    points: Seq<Point>,
    config: TrainerConfig,
    rule: UpdateRule,
    index: usize,
    line: Line,
    progress: Seq<Progress>,
    run: Run,
)
    requires
        config.unmeetable(),
        index <= config.budget,
        ends_as(points, config, rule, index, line, progress, run),
    ensures
        !(run.outcome is Converged),
        !(run.outcome is Diverged) ==> run.outcome is Exhausted && run.steps == config.budget,
        run.outcome matches Outcome::Diverged { index: at } ==> run.steps == at && index <= at
            < config.budget,
    decreases config.budget - index,
{
    if index < config.budget {
        let after = tried(points, config, rule, index, line, progress, run);
        if let Some(l) = after {
            lemma_unmeetable_stop(
                points,
                config,
                rule,
                (index + 1) as usize,
                l,
                config.noted(progress, index, l),
                run,
            );
        }
    }
}

/// Notes are only taken, they steer nothing: with another interval between
/// notes, and other notes so far, training can end at the same line, with the
/// same outcome, after as many steps. The notes that it then ends with are
/// handed back.
pub proof fn lemma_notes_steer_nothing(
    points: Seq<Point>,
    config: TrainerConfig,
    other: TrainerConfig,
    rule: UpdateRule,
    index: usize,
    line: Line,
    progress: Seq<Progress>,
    other_progress: Seq<Progress>,
    run: Run,
) -> (notes: Seq<Progress>)
    requires
        other.mode == config.mode,
        other.budget == config.budget,
        other.convergence == config.convergence,
        ends_as(points, config, rule, index, line, progress, run),
    ensures
        ends_as(
            points,
            other,
            rule,
            index,
            line,
            other_progress,
            Run { line: run.line, outcome: run.outcome, steps: run.steps, progress: notes },
        ),
    decreases config.budget - index,
{
    if index >= config.budget {
        other_progress
    } else {
        let after = tried(points, config, rule, index, line, progress, run);
        assert(step_ends(other.mode, rule, points, line, after));
        let notes = match after {
            None => other_progress,
            Some(l) => {
                if config.accepts(l) {
                    other.noted(other_progress, index, l)
                } else {
                    lemma_notes_steer_nothing(
                        points,
                        config,
                        other,
                        rule,
                        (index + 1) as usize,
                        l,
                        config.noted(progress, index, l),
                        other.noted(other_progress, index, l),
                        run,
                    )
                }
            },
        };
        assert(run_goes_on(
            points,
            other,
            rule,
            index,
            line,
            other_progress,
            after,
            Run { line: run.line, outcome: run.outcome, steps: run.steps, progress: notes },
        ));
        notes
    }
}

/// Training converges at index 0 where the first step cannot leave the range
/// and every line that it can lead to meets the early stop.
pub proof fn lemma_converges_at_once(
    points: Seq<Point>,
    config: TrainerConfig,
    rule: UpdateRule,
    line: Line,
    run: Run,
)
    requires
        config.budget > 0,
        ends_as(points, config, rule, 0, line, Seq::empty(), run),
        forall|after: Option<Line>| #[trigger]
            step_ends(config.mode, rule, points, line, after) ==> (after matches Some(l)
                && config.accepts(l)),
    ensures
        run.outcome == (Outcome::Converged { index: 0 }),
        run.steps == 1,
        config.accepts(run.line),
{
}

/// The square trick at a point that lies on the line leaves the line as it is.
pub proof fn lemma_square_step_on_line(
    rule: UpdateRule,
    line: Line,
    point: Point,
    after: Option<Line>,
)
    requires
        rule is Square,
        line.residual(point) == 0,
        rule.reaches(line, point, after),
    ensures
        after == Some(line),
{
    lemma_nothing_scaled(rule->Square_learning_rate@, point.0@);
}

/// A pass of the square trick over points that all lie on the line leaves
/// the line as it is.
pub proof fn lemma_square_epoch_on_line(
    rule: UpdateRule,
    points: Seq<Point>,
    from: int,
    line: Line,
    after: Option<Line>,
)
    requires
        rule is Square,
        forall|k: int| 0 <= k < points.len() ==> line.residual(#[trigger] points[k]) == 0,
        epoch_ends(rule, points, from, line, after),
    ensures
        after == Some(line),
    decreases points.len() - from,
{
    if 0 <= from < points.len() {
        let next = stepped(rule, points, from, line, after);
        lemma_square_step_on_line(rule, line, points[from], next);
        lemma_square_epoch_on_line(rule, points, from + 1, line, after);
    }
}

/// One step of training with the square trick, on points that all lie on the
/// line, leaves the line as it is, in either mode.
pub proof fn lemma_square_step_of_training_on_line(
    mode: Mode,
    rule: UpdateRule,
    points: Seq<Point>,
    line: Line,
    after: Option<Line>,
)
    requires
        rule is Square,
        forall|k: int| 0 <= k < points.len() ==> line.residual(#[trigger] points[k]) == 0,
        step_ends(mode, rule, points, line, after),
    ensures
        after == Some(line),
{
    match mode {
        Mode::Epoch => {
            lemma_square_epoch_on_line(rule, points, 0, line, after);
        },
        Mode::Sampled => {
            let k = choose|k: int|
                0 <= k < points.len() && #[trigger] rule.reaches(line, points[k], after);
            lemma_square_step_on_line(rule, line, points[k], after);
        },
    }
}

/// Training with the square trick on points that all lie on the line ends at
/// the line it began with, however many steps it takes and in either mode,
/// and never as diverged.
pub proof fn lemma_square_trick_stays_on_line(
    points: Seq<Point>,
    config: TrainerConfig,
    rule: UpdateRule,
    index: usize,
    line: Line,
    progress: Seq<Progress>,
    run: Run,
)
    requires
        rule is Square,
        forall|k: int| 0 <= k < points.len() ==> line.residual(#[trigger] points[k]) == 0,
        ends_as(points, config, rule, index, line, progress, run),
    ensures
        run.line == line,
        !(run.outcome is Diverged),
    decreases config.budget - index,
{
    if index < config.budget {
        let after = tried(points, config, rule, index, line, progress, run);
        lemma_square_step_of_training_on_line(config.mode, rule, points, line, after);
        if !config.accepts(line) {
            lemma_square_trick_stays_on_line(
                points,
                config,
                rule,
                (index + 1) as usize,
                line,
                config.noted(progress, index, line),
                run,
            );
        }
    }
}

/// A line that meets the early stop, trained with the square trick on points
/// that all lie on it, converges at index 0 and stays as it is: so it is where
/// training starts at the target itself, with a tolerance above zero and data
/// without noise.
pub proof fn lemma_square_trick_at_target(
    points: Seq<Point>,
    config: TrainerConfig,
    rule: UpdateRule,
    line: Line,
    run: Run,
)
    requires
        config.budget > 0,
        rule is Square,
        config.accepts(line),
        forall|k: int| 0 <= k < points.len() ==> line.residual(#[trigger] points[k]) == 0,
        ends_as(points, config, rule, 0, line, Seq::empty(), run),
    ensures
        run.outcome == (Outcome::Converged { index: 0 }),
        run.steps == 1,
        run.line == line,
{
    assert forall|after: Option<Line>| #[trigger]
        step_ends(config.mode, rule, points, line, after) implies after == Some(line) by {
        lemma_square_step_of_training_on_line(config.mode, rule, points, line, after);
    }
    lemma_converges_at_once(points, config, rule, line, run);
}

/// Training on one point with a budget of one step is one step of the rule
/// on that point, in either mode: it ends as `single_step_run` says of a
/// result that the rule can have there. With a rule that draws nothing that
/// is the rule's one result.
pub proof fn lemma_single_step(
    points: Seq<Point>,
    config: TrainerConfig,
    rule: UpdateRule,
    line: Line,
    progress: Seq<Progress>,
    run: Run,
) -> (after: Option<Line>)
    requires
        config.budget == 1,
        points.len() == 1,
        ends_as(points, config, rule, 0, line, progress, run),
    ensures
        rule.reaches(line, points[0], after),
        run == single_step_run(config, line, progress, after),
        rule.is_fixed() ==> after == rule.step(
            line,
            points[0],
            rule.least_step(),
            rule.least_step(),
        ),
{
    let after = tried(points, config, rule, 0, line, progress, run);
    match config.mode {
        Mode::Epoch => {
            let next = stepped(rule, points, 0, line, after);
            assert(next == after);
        },
        Mode::Sampled => {},
    }
    after
}

/// One step of training with the absolute trick, on one point that is off
/// the line and with a positive rate that is small enough, ends at the line
/// that the trick gives and leaves the point no further off than it was.
pub proof fn lemma_absolute_trick_single_step(
    points: Seq<Point>,
    config: TrainerConfig,
    rate: Fixed,
    line: Line,
    progress: Seq<Progress>,
    run: Run,
)
    requires
        config.budget == 1,
        points.len() == 1,
        rate@ > 0,
        line.residual(points[0]) != 0,
        absolute_reach(rate, points[0].0) <= 2 * magnitude(line.residual(points[0])),
        ends_as(
            points,
            config,
            UpdateRule::Absolute { learning_rate: rate },
            0,
            line,
            progress,
            run,
        ),
        !(run.outcome is Diverged),
    ensures
        absolute_step(line, points[0], rate) == Some(run.line),
        run.steps == 1,
        magnitude(run.line.residual(points[0])) <= magnitude(line.residual(points[0])),
{
    let rule = UpdateRule::Absolute { learning_rate: rate };
    lemma_single_step(points, config, rule, line, progress, run);
    lemma_absolute_trick_approaches(line, points[0], rate, run.line);
}

/// One step of training with the simple trick and one fixed step of at least
/// a raw unit, on one point at or right of zero that is off the line, and
/// with a step that is small enough, ends at the line that the trick gives
/// and leaves the point no further off than it was.
pub proof fn lemma_simple_trick_single_step(
    points: Seq<Point>,
    config: TrainerConfig,
    step: Fixed,
    line: Line,
    progress: Seq<Progress>,
    run: Run,
)
    requires
        config.budget == 1,
        points.len() == 1,
        step@ >= 1,
        points[0].0@ >= 0,
        line.residual(points[0]) != 0,
        simple_reach(step, step, points[0].0) <= 2 * magnitude(line.residual(points[0])),
        ends_as(
            points,
            config,
            UpdateRule::Simple { step_lo: step, step_hi: step },
            0,
            line,
            progress,
            run,
        ),
        !(run.outcome is Diverged),
    ensures
        simple_step(line, points[0], step, step) == Some(run.line),
        run.steps == 1,
        magnitude(run.line.residual(points[0])) <= magnitude(line.residual(points[0])),
{
    let rule = UpdateRule::Simple { step_lo: step, step_hi: step };
    lemma_single_step(points, config, rule, line, progress, run);
    lemma_simple_trick_right_of_zero(line, points[0], step, step, run.line);
}

} // verus!
