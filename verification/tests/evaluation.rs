use linear_fit::{test_line, EvalError, Fixed, Line, Metrics, Point};

const ONE: i64 = 1_000_000_000;

fn raw(v: i64) -> Fixed {
    Fixed { raw: v }
}

fn point(x: i64, y: i64) -> Point {
    Point(raw(x), raw(y))
}

#[test]
fn evaluator_scenario() {
    let line = Line(raw(ONE), raw(0));
    let points = vec![point(0, 0), point(ONE, 2 * ONE)];
    let metrics = test_line(&line, &points).unwrap();
    assert_eq!(metrics.absolute_error, raw(ONE));
    assert_eq!(metrics.square_error, raw(ONE));
    assert_eq!(metrics.mean_absolute_error, raw(ONE / 2));
    assert_eq!(metrics.mean_square_error, raw(ONE / 2));
    assert_eq!(metrics.rmse, raw(707_106_781));
    let rmse = metrics.rmse.raw as f64 / 1e9;
    assert!((rmse - 0.5f64.sqrt()).abs() < 1e-9);
}

#[test]
fn perfect_fit_has_no_error() {
    let line = Line(raw(2 * ONE), raw(ONE));
    let points = vec![point(-ONE, -ONE), point(0, ONE), point(ONE / 2, 2 * ONE)];
    let expected = Metrics {
        absolute_error: raw(0),
        square_error: raw(0),
        mean_absolute_error: raw(0),
        mean_square_error: raw(0),
        rmse: raw(0),
    };
    assert_eq!(test_line(&line, &points), Ok(expected));
}

#[test]
fn errors_count_on_both_sides_of_the_line() {
    // the line y = 0; distances 3, 4 and 0.5
    let line = Line(raw(0), raw(0));
    let points = vec![point(0, 3 * ONE), point(ONE, -4 * ONE), point(2 * ONE, ONE / 2)];
    let metrics = test_line(&line, &points).unwrap();
    assert_eq!(metrics.absolute_error, raw(7_500_000_000));
    assert_eq!(metrics.square_error, raw(25_250_000_000));
    assert_eq!(metrics.mean_absolute_error, raw(2_500_000_000));
    assert_eq!(metrics.mean_square_error, raw(8_416_666_666));
    assert_eq!(metrics.rmse, raw(2_901_149_197));
}

#[test]
fn means_round_down() {
    let line = Line(raw(0), raw(0));
    let points = vec![point(0, ONE), point(0, 0), point(0, 0)];
    let metrics = test_line(&line, &points).unwrap();
    assert_eq!(metrics.absolute_error, raw(ONE));
    assert_eq!(metrics.mean_absolute_error, raw(333_333_333));
    assert_eq!(metrics.mean_square_error, raw(333_333_333));
    // the root of a third, not of 0.333333333
    assert_eq!(metrics.rmse, raw(577_350_269));
}

#[test]
fn tiny_distances_still_count() {
    let line = Line(raw(0), raw(0));
    // one square of 31_622 raw units is below a raw unit, two of them are above
    let one = test_line(&line, &[point(0, 31_622)]).unwrap();
    assert_eq!(one.square_error, raw(0));
    assert_eq!(one.rmse, raw(31_622));
    let two = test_line(&line, &[point(0, 31_622), point(0, -31_622)]).unwrap();
    assert_eq!(two.absolute_error, raw(63_244));
    assert_eq!(two.square_error, raw(1));
    assert_eq!(two.mean_absolute_error, raw(31_622));
    assert_eq!(two.mean_square_error, raw(0));
    assert_eq!(two.rmse, raw(31_622));
    let three = test_line(&line, &[point(0, 1), point(0, -31_622), point(0, 31_623)]).unwrap();
    assert_eq!(three.absolute_error, raw(63_246));
    assert_eq!(three.square_error, raw(1));
    assert_eq!(three.mean_absolute_error, raw(21_082));
    assert_eq!(three.rmse, raw(25_819));
    // the smallest distance there is
    let least = test_line(&line, &[point(0, 1)]).unwrap();
    assert_eq!(least.mean_absolute_error, raw(1));
    assert_eq!(least.rmse, raw(1));
    let spread = test_line(&line, &[point(0, 3), point(0, 0)]).unwrap();
    assert_eq!(spread.mean_absolute_error, raw(1));
    assert_eq!(spread.rmse, raw(2));
}

#[test]
fn mean_distance_is_never_above_the_root_of_the_mean_square() {
    let line = Line(raw(ONE / 3), raw(-7));
    let mut points = Vec::new();
    let mut y: i64 = 1;
    for i in 0..60 {
        let x = ((i * 37) % 100 - 50) * (ONE / 25);
        y = (y * 48_271) % 2_147_483_647;
        points.push(point(x, y % (1 << (i % 31 + 1)) - (1 << (i % 31))));
        let metrics = test_line(&line, &points).unwrap();
        assert!(metrics.mean_absolute_error.raw <= metrics.rmse.raw);
    }
    // points that are all as far off: the two are the same
    let level = test_line(&Line(raw(0), raw(0)), &[point(0, 5), point(ONE, -5), point(2, 5)]);
    let level = level.unwrap();
    assert_eq!(level.mean_absolute_error, raw(5));
    assert_eq!(level.rmse, raw(5));
}

#[test]
fn single_point() {
    let line = Line(raw(ONE), raw(ONE));
    let metrics = test_line(&line, &[point(ONE, 0)]).unwrap();
    assert_eq!(metrics.absolute_error, raw(2 * ONE));
    assert_eq!(metrics.square_error, raw(4 * ONE));
    assert_eq!(metrics.mean_absolute_error, raw(2 * ONE));
    assert_eq!(metrics.mean_square_error, raw(4 * ONE));
    assert_eq!(metrics.rmse, raw(2 * ONE));
}

#[test]
fn no_points_is_an_error() {
    let line = Line(raw(ONE), raw(0));
    assert_eq!(test_line(&line, &[]), Err(EvalError::NoPoints));
}

#[test]
fn distance_out_of_range_is_an_error() {
    let line = Line(raw(0), raw(i64::MIN));
    assert_eq!(test_line(&line, &[point(0, i64::MAX)]), Err(EvalError::OutOfRange));
}

#[test]
fn sum_of_squares_out_of_range_is_an_error() {
    // each square fits, their sum does not
    let line = Line(raw(0), raw(0));
    let far = point(0, 96_000 * ONE);
    assert!(test_line(&line, &[far]).is_ok());
    assert_eq!(test_line(&line, &[far, far]), Err(EvalError::OutOfRange));
    assert_eq!(test_line(&line, &[point(0, 0), far, far]), Err(EvalError::OutOfRange));
}

#[test]
fn square_out_of_range_is_an_error() {
    // 100_000 squared is 1e10, above the largest value of about 9.2e9
    let line = Line(raw(0), raw(0));
    assert_eq!(test_line(&line, &[point(0, 100_000 * ONE)]), Err(EvalError::OutOfRange));
    assert_eq!(test_line(&line, &[point(0, 96_039 * ONE)]), Err(EvalError::OutOfRange));
    assert!(test_line(&line, &[point(0, 96_038 * ONE)]).is_ok());
    // 96_000 squared is 9.216e9 and fits
    let metrics = test_line(&line, &[point(0, 96_000 * ONE)]).unwrap();
    assert_eq!(metrics.square_error, raw(9_216_000_000 * ONE));
    assert_eq!(metrics.rmse, raw(96_000 * ONE));
}
