//! The training loop: repeated steps of one update rule over a dataset, with
//! an optional early stop and progress notes for an observer.

use vstd::prelude::*;
use crate::fixed::{magnitude, Fixed};
use crate::model::{Line, Point};
use crate::random::draw_index;
use crate::rules::UpdateRule;
use crate::training_laws::{fixed_run, lemma_fixed_training};
use rand::rngs::StdRng;

verus! {

/// What one step of training is.
#[derive(Clone, Copy, Debug, PartialEq, Eq, Structural)]
pub enum Mode {
    /// One pass over every point of the dataset, in its order.
    Epoch,
    /// One point of the dataset, drawn at random.
    Sampled,
}

/// The early stop: training ends once slope and intercept are both closer
/// to those of `target` than `tolerance`.
#[derive(Clone, Copy, Debug, PartialEq, Eq, Structural)]
pub struct Convergence {
    pub target: Line,
    pub tolerance: Fixed,
}

/// How to train.
#[derive(Clone, Copy, Debug, PartialEq, Eq, Structural)]
pub struct TrainerConfig {
    pub mode: Mode,
    /// How many steps to take at most.
    pub budget: usize,
    /// A note is taken after each step whose index is a multiple of this.
    pub report_every: usize,
    /// The early stop, if there is one.
    pub convergence: Option<Convergence>,
}

/// Why training did not start.
#[derive(Clone, Copy, Debug, PartialEq, Eq, Structural)]
pub enum ConfigError {
    /// The budget is zero.
    ZeroBudget,
    /// `report_every` is zero.
    ZeroInterval,
    /// There is no point to train on.
    EmptyDataset,
    /// The simple trick's smallest step is larger than its largest.
    StepRange,
}

/// How training ended.
#[derive(Clone, Copy, Debug, PartialEq, Eq, Structural)]
pub enum Outcome {
    /// The early stop was met after the step with this index.
    Converged { index: usize },
    /// The budget was used up.
    Exhausted,
    /// The step with this index left the range of `Fixed`. It was not taken.
    Diverged { index: usize },
}

/// A note for the observer: the line as it was after the step `index`.
#[derive(Clone, Copy, Debug, PartialEq, Eq, Structural)]
pub struct Progress {
    pub index: usize,
    pub line: Line,
}

/// What training gives back.
#[derive(Debug, PartialEq, Eq)]
pub struct Training {
    /// The line after the last step that was taken.
    pub line: Line,
    pub outcome: Outcome,
    /// How many steps were taken.
    pub steps: usize,
    /// The notes, in the order in which they were taken.
    pub progress: Vec<Progress>,
}

/// A `Training` as contracts see it.
pub struct Run {
    pub line: Line,
    pub outcome: Outcome,
    pub steps: usize,
    pub progress: Seq<Progress>,
}

impl View for Training {
    type V = Run;

    open spec fn view(&self) -> Run {
        Run { line: self.line, outcome: self.outcome, steps: self.steps, progress: self.progress@ }
    }
}

impl TrainerConfig {
    /// Whether the early stop is met at `line`.
    pub open spec fn accepts(self, line: Line) -> bool {
        self.convergence matches Some(c) && magnitude(line.0@ - c.target.0@) < c.tolerance@
            && magnitude(line.1@ - c.target.1@) < c.tolerance@
    }

    /// Whether no line at all can meet the early stop: there is none, or its
    /// tolerance is not above zero.
    pub open spec fn unmeetable(self) -> bool {
        match self.convergence {
            None => true,
            Some(c) => c.tolerance@ <= 0,
        }
    }

    /// The notes after the step `index` has ended in `line`.
    pub open spec fn noted(self, progress: Seq<Progress>, index: usize, line: Line) -> Seq<
        Progress,
    > {
        if index as int % self.report_every as int == 0 {
            progress.push(Progress { index, line })
        } else {
            progress
        }
    }

    /// `accepts`, computed.
    pub fn is_met(&self, line: &Line) -> (met: bool)
        ensures
            met == self.accepts(*line),
    {
        match self.convergence {
            None => false,
            Some(c) => {
                let slope_gap: i128 = (line.0.raw as i128) - (c.target.0.raw as i128);
                let intercept_gap: i128 = (line.1.raw as i128) - (c.target.1.raw as i128);
                let tolerance: i128 = c.tolerance.raw as i128;
                -tolerance < slope_gap && slope_gap < tolerance && -tolerance < intercept_gap
                    && intercept_gap < tolerance
            },
        }
    }
}

/// What is wrong with a request to train, if anything; the first that applies.
pub open spec fn config_error(config: TrainerConfig, points: Seq<Point>, rule: UpdateRule) -> Option<
    ConfigError,
> {
    if config.budget == 0 {
        Some(ConfigError::ZeroBudget)
    } else if config.report_every == 0 {
        Some(ConfigError::ZeroInterval)
    } else if points.len() == 0 {
        Some(ConfigError::EmptyDataset)
    } else if !rule.well_formed() {
        Some(ConfigError::StepRange)
    } else {
        None
    }
}

/// Whether a pass over the points from index `from` on, begun at `line`, can
/// end in `after`: `None` where some step on the way leaves the range.
pub open spec fn epoch_ends(
    rule: UpdateRule,
    points: Seq<Point>,
    from: int,
    line: Line,
    after: Option<Line>,
) -> bool
    decreases points.len() - from, 1int,
{
    if from < 0 || from >= points.len() {
        after == Some(line)
    } else {
        exists|next: Option<Line>| #[trigger]
            rule.reaches(line, points[from], next) && pass_goes_on(rule, points, from, next, after)
    }
}

/// Whether a pass whose step on the point with index `from` has given `next`
/// can end in `after`: it fails where that step failed, and goes on with the
/// next point where not.
pub open spec fn pass_goes_on(
    rule: UpdateRule,
    points: Seq<Point>,
    from: int,
    next: Option<Line>,
    after: Option<Line>,
) -> bool
    decreases points.len() - from, 0int,
{
    match next {
        None => after is None,
        Some(l) => 0 <= from < points.len() && epoch_ends(rule, points, from + 1, l, after),
    }
}

/// Whether one step on some point of the dataset can lead from `line` to `after`.
pub open spec fn sample_ends(rule: UpdateRule, points: Seq<Point>, line: Line, after: Option<Line>) -> bool {
    exists|k: int| 0 <= k < points.len() && #[trigger] rule.reaches(line, points[k], after)
}

/// Whether one step of training can lead from `line` to `after`.
pub open spec fn step_ends(
    mode: Mode,
    rule: UpdateRule,
    points: Seq<Point>,
    line: Line,
    after: Option<Line>,
) -> bool {
    match mode {
        Mode::Epoch => epoch_ends(rule, points, 0, line, after),
        Mode::Sampled => sample_ends(rule, points, line, after),
    }
}

/// Whether training that stands before the step `index`, at `line` and with
/// the notes `progress`, can end as `run`.
///
/// With the budget used up it ends there, as exhausted. Otherwise a step is
/// tried, and `run_goes_on` says what follows from its result.
pub open spec fn ends_as(
    points: Seq<Point>,
    config: TrainerConfig,
    rule: UpdateRule,
    index: usize,
    line: Line,
    progress: Seq<Progress>,
    run: Run,
) -> bool
    decreases config.budget - index, 1int,
{
    if index >= config.budget {
        run == (Run { line, outcome: Outcome::Exhausted, steps: config.budget, progress })
    } else {
        exists|after: Option<Line>| #[trigger]
            step_ends(config.mode, rule, points, line, after) && run_goes_on(
                points,
                config,
                rule,
                index,
                line,
                progress,
                after,
                run,
            )
    }
}

/// Whether training whose step `index` has given `after` can end as `run`.
///
/// If the step left the range, training ends as diverged at the line it had.
/// If not, a note is taken where one is due, and training ends as converged
/// where the early stop is met, and goes on with the next step where not.
pub open spec fn run_goes_on(
    points: Seq<Point>,
    config: TrainerConfig,
    rule: UpdateRule,
    index: usize,
    line: Line,
    progress: Seq<Progress>,
    after: Option<Line>,
    run: Run,
) -> bool
    decreases config.budget - index, 0int,
{
    match after {
        None => run == (Run { line, outcome: Outcome::Diverged { index }, steps: index, progress }),
        Some(l) => if config.accepts(l) {
            run == (Run {
                line: l,
                outcome: Outcome::Converged { index },
                steps: (index + 1) as usize,
                progress: config.noted(progress, index, l),
            })
        } else {
            index < config.budget && ends_as(
                points,
                config,
                rule,
                (index + 1) as usize,
                l,
                config.noted(progress, index, l),
                run,
            )
        },
    }
}

/// One pass of `rule` over `points`, in their order, begun at `line`.
pub fn run_epoch(rule: &UpdateRule, line: &Line, points: &[Point], rng: &mut StdRng) -> (after:
    Option<Line>)
    requires
        rule.well_formed(),
    ensures
        epoch_ends(*rule, points@, 0, *line, after),
        rule.is_fixed() ==> *final(rng) == *old(rng),
{
    let n: usize = points.len();
    let mut current: Line = *line;
    let mut j: usize = 0;
    while j < n
        invariant
            n == points@.len(),
            j <= n,
            rule.well_formed(),
            rule.is_fixed() ==> *rng == *old(rng),
            forall|after: Option<Line>| #[trigger]
                epoch_ends(*rule, points@, j as int, current, after) ==> epoch_ends(
                    *rule,
                    points@,
                    0,
                    *line,
                    after,
                ),
        decreases n - j,
    {
        match rule.apply(&current, &points[j], rng) {
            None => {
                assert(epoch_ends(*rule, points@, j as int, current, None));
                return None;
            },
            Some(next) => {
                assert forall|after: Option<Line>| #[trigger]
                    epoch_ends(*rule, points@, j + 1, next, after) implies epoch_ends(
                    *rule,
                    points@,
                    0,
                    *line,
                    after,
                ) by {
                    assert(epoch_ends(*rule, points@, j as int, current, after));
                }
                current = next;
            },
        }
        j = j + 1;
    }
    assert(epoch_ends(*rule, points@, j as int, current, Some(current)));
    Some(current)
}

/// One step of `rule` on a point of `points` drawn from `rng`.
pub fn run_sample(rule: &UpdateRule, line: &Line, points: &[Point], rng: &mut StdRng) -> (after:
    Option<Line>)
    requires
        rule.well_formed(),
        points@.len() > 0,
    ensures
        sample_ends(*rule, points@, *line, after),
{
    let k: usize = draw_index(rng, points.len());
    rule.apply(line, &points[k], rng)
}

/// Trains `line` on `points` with `rule`, as `config` says.
///
/// Where an error is returned, training has not started and nothing was drawn
/// from `rng`; nothing is drawn either in passes with a rule whose steps are
/// fixed.
///
/// Each step is one pass over the dataset or one drawn point. After a step
/// whose index is a multiple of `config.report_every` a note is taken, then
/// the early stop is tested. Training ends when the early stop is met, when
/// the budget is used up, or before a step that would leave the range of
/// `Fixed`. With an early stop that no line can meet it never ends as
/// converged, and it ends as exhausted only after as many steps as the budget
/// holds.
pub fn train_model(
    line: Line,
    points: &[Point],
    config: &TrainerConfig,
    rule: &UpdateRule,
    rng: &mut StdRng,
) -> (r: Result<Training, ConfigError>)
    ensures
        match r {
            Ok(t) => {
                &&& config_error(*config, points@, *rule) is None
                &&& ends_as(points@, *config, *rule, 0, line, Seq::empty(), t@)
            },
            Err(e) => config_error(*config, points@, *rule) == Some(e),
        },
        r matches Ok(t) ==> {
            &&& t.outcome is Converged ==> config.accepts(t.line)
            &&& config.unmeetable() ==> !(t.outcome is Converged)
            &&& config.unmeetable() && !(t.outcome is Diverged) ==> t.outcome is Exhausted
            &&& t.outcome is Exhausted ==> t.steps == config.budget
            &&& config.mode is Epoch && rule.is_fixed() ==> t@ == fixed_run(
                points@,
                *config,
                *rule,
                0,
                line,
                Seq::empty(),
            )
        },
        r is Err || (config.mode is Epoch && rule.is_fixed()) ==> *final(rng) == *old(rng),
{
    if config.budget == 0 {
        return Err(ConfigError::ZeroBudget);
    }
    if config.report_every == 0 {
        return Err(ConfigError::ZeroInterval);
    }
    if points.len() == 0 {
        return Err(ConfigError::EmptyDataset);
    }
    if !rule.is_well_formed() {
        return Err(ConfigError::StepRange);
    }
    let mut current: Line = line;
    let mut progress: Vec<Progress> = Vec::new();
    let mut index: usize = 0;
    while index < config.budget
        invariant
            index <= config.budget,
            config_error(*config, points@, *rule) is None,
            config.mode is Epoch && rule.is_fixed() ==> *rng == *old(rng),
            forall|run: Run| #[trigger]
                ends_as(points@, *config, *rule, index, current, progress@, run) ==> ends_as(
                    points@,
                    *config,
                    *rule,
                    0,
                    line,
                    Seq::empty(),
                    run,
                ),
        decreases config.budget - index,
    {
        let after = match config.mode {
            Mode::Epoch => run_epoch(rule, &current, points, rng),
            Mode::Sampled => run_sample(rule, &current, points, rng),
        };
        assert(step_ends(config.mode, *rule, points@, current, after));
        match after {
            None => {
                let t = Training {
                    line: current,
                    outcome: Outcome::Diverged { index },
                    steps: index,
                    progress,
                };
                assert(ends_as(points@, *config, *rule, index, current, t.progress@, t@));
                proof {
                    if config.mode is Epoch && rule.is_fixed() {
                        lemma_fixed_training(points@, *config, *rule, 0, line, Seq::empty(), t@);
                    }
                }
                return Ok(t);
            },
            Some(next) => {
                let ghost before = progress@;
                if index % config.report_every == 0 {
                    progress.push(Progress { index, line: next });
                }
                assert(progress@ == config.noted(before, index, next));
                if config.is_met(&next) {
                    let t = Training {
                        line: next,
                        outcome: Outcome::Converged { index },
                        steps: index + 1,
                        progress,
                    };
                    assert(ends_as(points@, *config, *rule, index, current, before, t@));
                    proof {
                        if config.mode is Epoch && rule.is_fixed() {
                            lemma_fixed_training(points@, *config, *rule, 0, line, Seq::empty(), t@);
                        }
                    }
                    return Ok(t);
                }
                assert forall|run: Run| #[trigger]
                    ends_as(
                        points@,
                        *config,
                        *rule,
                        (index + 1) as usize,
                        next,
                        progress@,
                        run,
                    ) implies ends_as(points@, *config, *rule, 0, line, Seq::empty(), run) by {
                    assert(ends_as(points@, *config, *rule, index, current, before, run));
                }
                current = next;
            },
        }
        index = index + 1;
    }
    let t = Training { line: current, outcome: Outcome::Exhausted, steps: index, progress };
    assert(ends_as(points@, *config, *rule, index, current, t.progress@, t@));
    proof {
        if config.mode is Epoch && rule.is_fixed() {
            lemma_fixed_training(points@, *config, *rule, 0, line, Seq::empty(), t@);
        }
    }
    Ok(t)
}

} // verus!
