use linear_fit::{
    build_vector, points_on_line, run_epoch, run_sample, square_trick, test_line, train_model,
    ConfigError,
    Convergence, Fixed, Line, Mode, Outcome, Point, Progress, TrainerConfig, UpdateRule,
};
use rand::rngs::StdRng;
use rand::SeedableRng;

const ONE: i64 = 1_000_000_000;
const MILLI: i64 = 1_000_000;

fn raw(v: i64) -> Fixed {
    Fixed { raw: v }
}

fn line(m: i64, b: i64) -> Line {
    Line(raw(m), raw(b))
}

fn point(x: i64, y: i64) -> Point {
    Point(raw(x), raw(y))
}

fn to_f64(v: Fixed) -> f64 {
    v.raw as f64 / 1e9
}

fn points_on(target: &Line, length: usize) -> Vec<Point> {
    points_on_line(target, length).unwrap()
}

fn config(mode: Mode, budget: usize, report_every: usize) -> TrainerConfig {
    TrainerConfig { mode, budget, report_every, convergence: None }
}

fn stopping(mode: Mode, budget: usize, target: Line, tolerance: i64) -> TrainerConfig {
    TrainerConfig {
        mode,
        budget,
        report_every: 1,
        convergence: Some(Convergence { target, tolerance: raw(tolerance) }),
    }
}

fn square(rate: i64) -> UpdateRule {
    UpdateRule::Square { learning_rate: raw(rate) }
}

fn absolute(rate: i64) -> UpdateRule {
    UpdateRule::Absolute { learning_rate: raw(rate) }
}

fn simple(lo: i64, hi: i64) -> UpdateRule {
    UpdateRule::Simple { step_lo: raw(lo), step_hi: raw(hi) }
}

#[test]
fn square_trick_end_to_end() {
    let target = line(2 * ONE, ONE);
    let points = points_on(&target, 100);
    assert_eq!(points[0].0, raw(-ONE));
    assert_eq!(points[99].0, raw(980 * MILLI));
    let mut rng = StdRng::seed_from_u64(1);
    let run = train_model(
        line(0, 0),
        &points,
        &config(Mode::Epoch, 500, 50),
        &square(10 * MILLI),
        &mut rng,
    )
    .unwrap();
    assert_eq!(run.outcome, Outcome::Exhausted);
    assert_eq!(run.steps, 500);
    assert!((to_f64(run.line.0) - 2.0).abs() < 0.05);
    assert!((to_f64(run.line.1) - 1.0).abs() < 0.05);
    let metrics = test_line(&run.line, &points).unwrap();
    assert!(to_f64(metrics.rmse) < 0.05);
    assert!(to_f64(metrics.mean_absolute_error) < 0.05);
}

#[test]
fn square_trick_end_to_end_stops_early() {
    let target = line(2 * ONE, ONE);
    let points = points_on(&target, 100);
    let mut rng = StdRng::seed_from_u64(1);
    let run = train_model(
        line(0, 0),
        &points,
        &stopping(Mode::Epoch, 500, target, MILLI),
        &square(10 * MILLI),
        &mut rng,
    )
    .unwrap();
    match run.outcome {
        Outcome::Converged { index } => {
            assert!(index > 0);
            assert!(index < 499);
            assert_eq!(run.steps, index + 1);
            assert_eq!(run.progress.len(), index + 1);
            assert_eq!(run.progress[index], Progress { index, line: run.line });
        },
        other => panic!("ended as {:?}", other),
    }
    assert!((run.line.0.raw - 2 * ONE).abs() < MILLI);
    assert!((run.line.1.raw - ONE).abs() < MILLI);
    // the step before had not met the early stop
    let before = run.progress[run.steps - 2].line;
    assert!((before.0.raw - 2 * ONE).abs() >= MILLI || (before.1.raw - ONE).abs() >= MILLI);
}

#[test]
fn training_at_the_target_converges_at_index_zero() {
    let target = line(ONE, 0);
    let points = points_on(&target, 100);
    for mode in [Mode::Epoch, Mode::Sampled] {
        for tolerance in [1, MILLI, ONE] {
            let mut rng = StdRng::seed_from_u64(2);
            let run = train_model(
                target,
                &points,
                &stopping(mode, 40, target, tolerance),
                &square(10 * MILLI),
                &mut rng,
            )
            .unwrap();
            assert_eq!(run.outcome, Outcome::Converged { index: 0 });
            assert_eq!(run.steps, 1);
            assert_eq!(run.line, target);
            assert_eq!(run.progress, vec![Progress { index: 0, line: target }]);
        }
    }
}

#[test]
fn training_at_the_target_with_small_steps_converges_at_index_zero() {
    let target = line(ONE, 0);
    let points = vec![point(ONE / 2, ONE / 2)];
    let rules = [simple(MILLI, MILLI), simple(0, MILLI), absolute(MILLI), square(MILLI)];
    for rule in rules.iter() {
        for mode in [Mode::Epoch, Mode::Sampled] {
            let mut rng = StdRng::seed_from_u64(3);
            let run =
                train_model(target, &points, &stopping(mode, 9, target, 2 * MILLI), rule, &mut rng)
                    .unwrap();
            assert_eq!(run.outcome, Outcome::Converged { index: 0 });
            assert_eq!(run.steps, 1);
        }
    }
}

#[test]
fn training_at_the_target_with_a_wide_step_leaves_it() {
    // the point lies on the line; the absolute trick steps off it by its rate
    // and comes back with the next step
    let target = line(ONE, 0);
    let points = vec![point(0, 0)];
    let mut rng = StdRng::seed_from_u64(3);
    let run = train_model(
        target,
        &points,
        &stopping(Mode::Epoch, 3, target, ONE / 2),
        &absolute(ONE),
        &mut rng,
    )
    .unwrap();
    assert_eq!(run.outcome, Outcome::Converged { index: 1 });
    assert_eq!(run.steps, 2);
    assert_eq!(run.line, target);
    let noted: Vec<Line> = run.progress.iter().map(|p| p.line).collect();
    assert_eq!(noted, vec![line(ONE, -ONE), target]);
}

#[test]
fn tolerance_zero_uses_up_the_budget() {
    let target = line(2 * ONE, ONE);
    let points = points_on(&target, 20);
    let rules = [square(10 * MILLI), absolute(MILLI), simple(MILLI, MILLI), simple(0, MILLI)];
    for rule in rules.iter() {
        for mode in [Mode::Epoch, Mode::Sampled] {
            for budget in [1usize, 2, 25] {
                for start in [target, line(0, 0)] {
                    let mut rng = StdRng::seed_from_u64(4);
                    let run = train_model(
                        start,
                        &points,
                        &stopping(mode, budget, target, 0),
                        rule,
                        &mut rng,
                    )
                    .unwrap();
                    assert_eq!(run.outcome, Outcome::Exhausted);
                    assert_eq!(run.steps, budget);
                    assert_eq!(run.progress.len(), budget);
                }
            }
        }
    }
}

#[test]
fn negative_tolerance_uses_up_the_budget() {
    let target = line(ONE, 0);
    let points = points_on(&target, 5);
    let mut rng = StdRng::seed_from_u64(4);
    let run =
        train_model(target, &points, &stopping(Mode::Epoch, 7, target, -1), &square(MILLI), &mut rng)
            .unwrap();
    assert_eq!(run.outcome, Outcome::Exhausted);
    assert_eq!(run.steps, 7);
    assert_eq!(run.line, target);
}

#[test]
fn without_an_early_stop_the_budget_is_used_up() {
    let target = line(ONE, 0);
    let points = points_on(&target, 5);
    let mut rng = StdRng::seed_from_u64(4);
    let run = train_model(target, &points, &config(Mode::Sampled, 12, 5), &square(MILLI), &mut rng)
        .unwrap();
    assert_eq!(run.outcome, Outcome::Exhausted);
    assert_eq!(run.steps, 12);
    assert_eq!(run.line, target);
}

#[test]
fn the_early_stop_is_strict() {
    let target = line(ONE, ONE);
    let strict = stopping(Mode::Epoch, 1, target, MILLI);
    assert!(strict.is_met(&target));
    assert!(strict.is_met(&line(ONE + MILLI - 1, ONE - MILLI + 1)));
    assert!(!strict.is_met(&line(ONE + MILLI, ONE)));
    assert!(!strict.is_met(&line(ONE, ONE - MILLI)));
    assert!(!strict.is_met(&line(ONE - MILLI, ONE)));
    assert!(!stopping(Mode::Epoch, 1, target, 0).is_met(&target));
    assert!(!stopping(Mode::Epoch, 1, target, -5).is_met(&target));
    assert!(!config(Mode::Epoch, 1, 1).is_met(&target));
    // both parameters have to be close
    assert!(!strict.is_met(&line(ONE, 5 * ONE)));
    assert!(!strict.is_met(&line(5 * ONE, ONE)));
    // the widest gaps there are
    let ends = stopping(Mode::Epoch, 1, line(i64::MIN, i64::MAX), i64::MAX);
    assert!(!ends.is_met(&line(i64::MAX, i64::MIN)));
    assert!(ends.is_met(&line(-2, 1)));
    assert!(!ends.is_met(&line(-1, 0)));
}

#[test]
fn zero_budget_is_an_error() {
    let points = vec![point(0, 0)];
    let mut rng = StdRng::seed_from_u64(5);
    let r = train_model(line(0, 0), &points, &config(Mode::Epoch, 0, 1), &square(1), &mut rng);
    assert_eq!(r, Err(ConfigError::ZeroBudget));
    // the first fault is the one that is named
    let all_wrong = train_model(line(0, 0), &[], &config(Mode::Sampled, 0, 0), &simple(2, 1), &mut rng);
    assert_eq!(all_wrong, Err(ConfigError::ZeroBudget));
}

#[test]
fn zero_interval_is_an_error() {
    let points = vec![point(0, 0)];
    let mut rng = StdRng::seed_from_u64(5);
    let r = train_model(line(0, 0), &points, &config(Mode::Epoch, 5, 0), &square(1), &mut rng);
    assert_eq!(r, Err(ConfigError::ZeroInterval));
    let more = train_model(line(0, 0), &[], &config(Mode::Epoch, 5, 0), &simple(2, 1), &mut rng);
    assert_eq!(more, Err(ConfigError::ZeroInterval));
}

#[test]
fn empty_dataset_is_an_error() {
    let mut rng = StdRng::seed_from_u64(5);
    for mode in [Mode::Epoch, Mode::Sampled] {
        let r = train_model(line(0, 0), &[], &config(mode, 5, 1), &square(1), &mut rng);
        assert_eq!(r, Err(ConfigError::EmptyDataset));
        let more = train_model(line(0, 0), &[], &config(mode, 5, 1), &simple(2, 1), &mut rng);
        assert_eq!(more, Err(ConfigError::EmptyDataset));
    }
}

#[test]
fn upside_down_step_range_is_an_error() {
    let points = vec![point(0, 0)];
    let mut rng = StdRng::seed_from_u64(5);
    let fresh = StdRng::seed_from_u64(5);
    let r = train_model(line(0, 0), &points, &config(Mode::Sampled, 5, 1), &simple(2, 1), &mut rng);
    assert_eq!(r, Err(ConfigError::StepRange));
    // training did not start: nothing was drawn
    assert_eq!(rng, fresh);
}

#[test]
fn a_step_out_of_range_ends_training_as_diverged() {
    // each step lifts both parameters by the largest value there is
    let points = vec![point(0, i64::MAX)];
    let mut rng = StdRng::seed_from_u64(6);
    let run = train_model(
        line(0, 0),
        &points,
        &config(Mode::Epoch, 10, 1),
        &simple(i64::MAX, i64::MAX),
        &mut rng,
    )
    .unwrap();
    assert_eq!(run.outcome, Outcome::Diverged { index: 1 });
    assert_eq!(run.steps, 1);
    assert_eq!(run.line, line(i64::MAX, i64::MAX));
    assert_eq!(run.progress, vec![Progress { index: 0, line: line(i64::MAX, i64::MAX) }]);
}

#[test]
fn a_first_step_out_of_range_leaves_the_line_as_it_was() {
    let start = line(0, i64::MAX);
    let points = vec![point(0, 0), point(0, i64::MAX)];
    for mode in [Mode::Epoch, Mode::Sampled] {
        let mut rng = StdRng::seed_from_u64(6);
        // the residual at the first point cannot be held... at the second it is zero
        let run = train_model(start, &[points[0]], &config(mode, 4, 1), &square(ONE), &mut rng)
            .unwrap();
        assert_eq!(run.outcome, Outcome::Exhausted);
        let low = line(0, i64::MIN);
        let run = train_model(low, &[points[1]], &config(mode, 4, 1), &square(ONE), &mut rng)
            .unwrap();
        assert_eq!(run.outcome, Outcome::Diverged { index: 0 });
        assert_eq!(run.steps, 0);
        assert_eq!(run.line, low);
        assert!(run.progress.is_empty());
    }
}

#[test]
fn a_pass_that_fails_half_way_is_not_taken() {
    // the first point moves the line, the second cannot be stepped on
    let start = line(0, 0);
    let points = vec![point(0, ONE), point(0, i64::MAX)];
    let mut rng = StdRng::seed_from_u64(6);
    let rule = square(2 * ONE);
    assert_eq!(square_trick(&start, &points[0], raw(2 * ONE)), Some(line(0, 2 * ONE)));
    assert_eq!(square_trick(&line(0, 2 * ONE), &points[1], raw(2 * ONE)), None);
    assert_eq!(run_epoch(&rule, &start, &points, &mut rng), None);
    let run = train_model(start, &points, &config(Mode::Epoch, 3, 1), &rule, &mut rng).unwrap();
    assert_eq!(run.outcome, Outcome::Diverged { index: 0 });
    assert_eq!(run.line, start);
    assert_eq!(run.steps, 0);
}

#[test]
fn notes_are_taken_at_multiples_of_the_interval() {
    let target = line(2 * ONE, ONE);
    let points = points_on(&target, 10);
    let mut rng = StdRng::seed_from_u64(7);
    let run =
        train_model(line(0, 0), &points, &config(Mode::Epoch, 10, 3), &square(10 * MILLI), &mut rng)
            .unwrap();
    let indices: Vec<usize> = run.progress.iter().map(|p| p.index).collect();
    assert_eq!(indices, vec![0, 3, 6, 9]);
    assert_eq!(run.progress[3].line, run.line);
    // the note at index 0 holds the line after the first pass
    let first = run_epoch(&square(10 * MILLI), &line(0, 0), &points, &mut rng).unwrap();
    assert_eq!(run.progress[0].line, first);
}

#[test]
fn an_interval_above_the_budget_notes_the_first_step_only() {
    let points = points_on(&line(ONE, 0), 10);
    let mut rng = StdRng::seed_from_u64(7);
    let run =
        train_model(line(0, 0), &points, &config(Mode::Sampled, 10, 100), &absolute(MILLI), &mut rng)
            .unwrap();
    assert_eq!(run.progress.len(), 1);
    assert_eq!(run.progress[0].index, 0);
}

#[test]
fn notes_steer_nothing() {
    let target = line(2 * ONE, ONE);
    let mut data_rng = StdRng::seed_from_u64(8);
    let points = build_vector(&target, 50, raw(50 * MILLI), &mut data_rng).unwrap();
    let rules = [square(10 * MILLI), simple(MILLI, 5 * MILLI)];
    for rule in rules.iter() {
        for mode in [Mode::Epoch, Mode::Sampled] {
            let mut runs = Vec::new();
            for report_every in [1usize, 7, 1000] {
                let mut rng = StdRng::seed_from_u64(8);
                let mut c = stopping(mode, 60, target, 20 * MILLI);
                c.report_every = report_every;
                runs.push(train_model(line(0, 0), &points, &c, rule, &mut rng).unwrap());
            }
            assert_eq!(runs[0].line, runs[1].line);
            assert_eq!(runs[0].outcome, runs[1].outcome);
            assert_eq!(runs[0].steps, runs[1].steps);
            assert_eq!(runs[0].line, runs[2].line);
            assert_eq!(runs[0].outcome, runs[2].outcome);
            assert!(runs[1].progress.len() < runs[0].progress.len());
        }
    }
}

#[test]
fn a_pass_is_the_rule_on_each_point_in_turn() {
    let points = vec![point(-ONE, 3 * ONE), point(0, -ONE), point(ONE / 2, ONE / 4)];
    let start = line(ONE, -ONE);
    let rate = raw(100 * MILLI);
    let mut by_hand = start;
    for p in points.iter() {
        by_hand = square_trick(&by_hand, p, rate).unwrap();
    }
    let mut rng = StdRng::seed_from_u64(9);
    assert_eq!(run_epoch(&square(100 * MILLI), &start, &points, &mut rng), Some(by_hand));
    // the order of the points matters
    let mut reversed = points.clone();
    reversed.reverse();
    assert_ne!(run_epoch(&square(100 * MILLI), &start, &reversed, &mut rng), Some(by_hand));
    let run =
        train_model(start, &points, &config(Mode::Epoch, 1, 1), &square(100 * MILLI), &mut rng)
            .unwrap();
    assert_eq!(run.line, by_hand);
    // a pass over nothing leaves the line alone
    assert_eq!(run_epoch(&square(100 * MILLI), &start, &[], &mut rng), Some(start));
}

#[test]
fn passes_with_a_fixed_rule_do_not_depend_on_the_seed() {
    let target = line(-ONE, ONE / 2);
    let points = points_on(&target, 30);
    let rules = [square(20 * MILLI), absolute(MILLI), simple(MILLI, MILLI)];
    for rule in rules.iter() {
        let mut first = StdRng::seed_from_u64(10);
        let mut second = StdRng::seed_from_u64(11);
        let a = train_model(line(0, 0), &points, &config(Mode::Epoch, 20, 4), rule, &mut first);
        let b = train_model(line(0, 0), &points, &config(Mode::Epoch, 20, 4), rule, &mut second);
        assert_eq!(a, b);
        assert_eq!(first, StdRng::seed_from_u64(10));
    }
}

#[test]
fn a_sampled_step_is_the_rule_on_one_of_the_points() {
    let points = vec![point(-ONE, 3 * ONE), point(0, -ONE), point(ONE / 2, ONE / 4)];
    let start = line(ONE, -ONE);
    let rate = raw(100 * MILLI);
    let candidates: Vec<Line> =
        points.iter().map(|p| square_trick(&start, p, rate).unwrap()).collect();
    let mut rng = StdRng::seed_from_u64(12);
    let mut hits = [0usize; 3];
    for _ in 0..300 {
        let after = run_sample(&square(100 * MILLI), &start, &points, &mut rng).unwrap();
        let which = candidates.iter().position(|c| *c == after).unwrap();
        hits[which] += 1;
    }
    // every point is drawn, none of them always
    assert!(hits.iter().all(|&h| h > 50));
    let run =
        train_model(start, &points, &config(Mode::Sampled, 1, 1), &square(100 * MILLI), &mut rng)
            .unwrap();
    assert!(candidates.contains(&run.line));
    assert_eq!(run.steps, 1);
}

#[test]
fn sampled_training_depends_on_the_seed_alone() {
    let target = line(2 * ONE, ONE);
    let mut data_rng = StdRng::seed_from_u64(13);
    let points = build_vector(&target, 40, raw(10 * MILLI), &mut data_rng).unwrap();
    let c = config(Mode::Sampled, 500, 100);
    let rule = simple(MILLI, 3 * MILLI);
    let mut first = StdRng::seed_from_u64(14);
    let mut second = StdRng::seed_from_u64(14);
    let mut third = StdRng::seed_from_u64(15);
    let a = train_model(line(0, 0), &points, &c, &rule, &mut first).unwrap();
    let b = train_model(line(0, 0), &points, &c, &rule, &mut second).unwrap();
    let other = train_model(line(0, 0), &points, &c, &rule, &mut third).unwrap();
    assert_eq!(a, b);
    assert_ne!(a.line, other.line);
}

#[test]
fn sampled_square_trick_finds_the_target() {
    let target = line(2 * ONE, ONE);
    let points = points_on(&target, 100);
    let mut rng = StdRng::seed_from_u64(16);
    let run = train_model(
        line(0, 0),
        &points,
        &stopping(Mode::Sampled, 200_000, target, 10 * MILLI),
        &square(10 * MILLI),
        &mut rng,
    )
    .unwrap();
    assert!(matches!(run.outcome, Outcome::Converged { .. }));
    assert!((run.line.0.raw - 2 * ONE).abs() < 10 * MILLI);
    assert!((run.line.1.raw - ONE).abs() < 10 * MILLI);
}

#[test]
fn absolute_trick_comes_close_on_noisy_data() {
    let target = line(-ONE, 3 * ONE);
    let mut data_rng = StdRng::seed_from_u64(17);
    let points = build_vector(&target, 200, raw(50 * MILLI), &mut data_rng).unwrap();
    let held_out = build_vector(&target, 50, raw(50 * MILLI), &mut data_rng).unwrap();
    let mut rng = StdRng::seed_from_u64(18);
    let run = train_model(
        line(ONE, 0),
        &points,
        &stopping(Mode::Epoch, 2_000, target, 100 * MILLI),
        &absolute(MILLI),
        &mut rng,
    )
    .unwrap();
    assert!(matches!(run.outcome, Outcome::Converged { .. }));
    let metrics = test_line(&run.line, &held_out).unwrap();
    assert!(to_f64(metrics.rmse) < 0.2);
}

#[test]
fn simple_trick_with_a_fixed_step_moves_both_parameters_alike() {
    // slope and intercept go up or down together, so their gap stays: the
    // target can be met only where it has the gap that training starts with
    let target = line(2 * ONE, 3 * ONE);
    let mut data_rng = StdRng::seed_from_u64(19);
    let points = build_vector(&target, 200, raw(50 * MILLI), &mut data_rng).unwrap();
    let mut rng = StdRng::seed_from_u64(20);
    let run = train_model(
        line(0, ONE),
        &points,
        &stopping(Mode::Epoch, 200, target, 100 * MILLI),
        &simple(MILLI, MILLI),
        &mut rng,
    )
    .unwrap();
    assert!(matches!(run.outcome, Outcome::Converged { .. }));
    assert_eq!(run.line.1.raw - run.line.0.raw, ONE);
    for note in run.progress.iter() {
        assert_eq!(note.line.1.raw - note.line.0.raw, ONE);
    }
    let off = train_model(
        line(ONE, 0),
        &points,
        &stopping(Mode::Epoch, 200, target, 100 * MILLI),
        &simple(MILLI, MILLI),
        &mut rng,
    )
    .unwrap();
    assert_eq!(off.outcome, Outcome::Exhausted);
    assert_eq!(off.steps, 200);
    assert_eq!(off.line.1.raw - off.line.0.raw, -ONE);
}

#[test]
fn simple_trick_with_drawn_steps_comes_close() {
    let target = line(2 * ONE, 3 * ONE);
    let points = points_on(&target, 200);
    let mut rng = StdRng::seed_from_u64(21);
    let run = train_model(
        line(0, ONE),
        &points,
        &stopping(Mode::Epoch, 200, target, 100 * MILLI),
        &simple(MILLI / 2, 2 * MILLI),
        &mut rng,
    )
    .unwrap();
    assert!(matches!(run.outcome, Outcome::Converged { .. }));
    // drawn one by one, the two steps differ, and the gap drifts
    assert_ne!(run.line.1.raw - run.line.0.raw, ONE);
}

#[test]
fn square_trick_on_points_of_the_line_never_moves() {
    let start = line(-3 * ONE, ONE / 7);
    let points = points_on(&start, 37);
    for mode in [Mode::Epoch, Mode::Sampled] {
        for rate in [MILLI, ONE, i64::MAX, i64::MIN] {
            let mut rng = StdRng::seed_from_u64(30);
            let run = train_model(start, &points, &config(mode, 25, 5), &square(rate), &mut rng)
                .unwrap();
            assert_eq!(run.line, start);
            assert_eq!(run.outcome, Outcome::Exhausted);
            assert_eq!(run.steps, 25);
            for note in run.progress.iter() {
                assert_eq!(note.line, start);
            }
        }
    }
}

#[test]
fn one_step_on_one_point_is_the_trick_itself() {
    let start = line(ONE, -ONE);
    let p = point(ONE / 2, 3 * ONE);
    // the line stands at -0.5 above x = 0.5: the point lies 3.5 above it
    for mode in [Mode::Epoch, Mode::Sampled] {
        let mut rng = StdRng::seed_from_u64(31);
        let run = train_model(start, &[p], &config(mode, 1, 1), &absolute(10 * MILLI), &mut rng)
            .unwrap();
        assert_eq!(run.line, line(ONE + 5 * MILLI, -ONE + 10 * MILLI));
        assert_eq!(run.steps, 1);
        assert_eq!(run.outcome, Outcome::Exhausted);
        let after = p.1.raw - run.line.predicted_y(p.0).unwrap().raw;
        assert_eq!(after, 3_500_000_000 - 12_500_000);
        let run = train_model(start, &[p], &config(mode, 1, 1), &simple(MILLI, MILLI), &mut rng)
            .unwrap();
        assert_eq!(run.line, line(ONE + MILLI, -ONE + MILLI));
        assert_eq!(run.steps, 1);
        let after = p.1.raw - run.line.predicted_y(p.0).unwrap().raw;
        assert_eq!(after, 3_500_000_000 - 1_500_000);
        // with an early stop that the step meets, the run ends as converged
        let wide = stopping(mode, 1, start, ONE);
        let run = train_model(start, &[p], &wide, &simple(MILLI, MILLI), &mut rng).unwrap();
        assert_eq!(run.line, line(ONE + MILLI, -ONE + MILLI));
        assert_eq!(run.outcome, Outcome::Converged { index: 0 });
    }
}

#[test]
fn errors_and_fixed_passes_draw_nothing() {
    let points = points_on(&line(ONE, 0), 5);
    let mut rng = StdRng::seed_from_u64(32);
    let fresh = StdRng::seed_from_u64(32);
    assert!(train_model(line(0, 0), &points, &config(Mode::Sampled, 0, 1), &simple(1, 5), &mut rng)
        .is_err());
    assert!(train_model(line(0, 0), &points, &config(Mode::Sampled, 5, 0), &simple(1, 5), &mut rng)
        .is_err());
    assert!(train_model(line(0, 0), &[], &config(Mode::Sampled, 5, 1), &simple(1, 5), &mut rng)
        .is_err());
    assert!(train_model(line(0, 0), &points, &config(Mode::Epoch, 5, 1), &absolute(MILLI), &mut rng)
        .is_ok());
    assert_eq!(rng, fresh);
    assert!(train_model(line(0, 0), &points, &config(Mode::Sampled, 5, 1), &absolute(MILLI), &mut rng)
        .is_ok());
    assert_ne!(rng, fresh);
}
