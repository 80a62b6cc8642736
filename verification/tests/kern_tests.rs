use gulzar::kerning::determine_kern;
use gulzar::pathdist::path_distance;
use gulzar::{Point, Segment};

fn line(x0: i64, y0: i64, x1: i64, y1: i64) -> Segment {
    Segment::Line { p0: Point { x: x0, y: y0 }, p1: Point { x: x1, y: y1 } }
}

fn square(x0: i64, y0: i64, side: i64) -> Vec<Segment> {
    vec![
        line(x0, y0, x0 + side, y0),
        line(x0 + side, y0, x0 + side, y0 + side),
        line(x0 + side, y0 + side, x0, y0 + side),
        line(x0, y0 + side, x0, y0),
    ]
}

#[test]
fn kern_converges_for_unit_squares() {
    // Two 100-unit squares with centers 250 units apart; target gap 50.
    let left = vec![square(0, 0, 100)];
    let right = vec![square(250, 0, 100)];
    let kern = determine_kern(&left, &right, 50, 0, 1);
    // Applying the offset brings the measured distance within 10 of 50.
    let moved = vec![square(250 + kern, 0, 100)];
    let measured = path_distance(&left, &moved).unwrap();
    assert!((50 - measured).abs() <= 10);
    // For this axis-aligned pair the solver lands on the target exactly.
    assert_eq!(kern, -100);
    assert_eq!(measured, 50);
}

#[test]
fn kern_clamps_to_minimum_possible() {
    // The target would demand pulling the right square 4850 units left,
    // far beyond the floor of -1000 * scale; the floor is returned
    // exactly and iteration stops at once.
    let left = vec![square(0, 0, 100)];
    let right = vec![square(5000, 0, 100)];
    let kern = determine_kern(&left, &right, 50, 0, 1);
    assert_eq!(kern, -1000);
}

#[test]
fn kern_floor_scales_with_scale_factor() {
    let left = vec![square(0, 0, 100)];
    let right = vec![square(9000, 0, 100)];
    let kern = determine_kern(&left, &right, 50, 0, 3);
    assert_eq!(kern, -3000);
}

#[test]
fn kern_without_contours_returns_floor() {
    let none: Vec<Vec<Segment>> = vec![];
    let some = vec![square(0, 0, 100)];
    assert_eq!(determine_kern(&none, &some, 50, 0, 2), -2000);
    assert_eq!(determine_kern(&some, &none, 50, 0, 2), -2000);
}

#[test]
fn kern_zero_when_already_within_tolerance() {
    // Gap 55 with target 50: within the 10-unit convergence band after
    // one measurement, so the first correction is the whole kern.
    let left = vec![square(0, 0, 100)];
    let right = vec![square(155, 0, 100)];
    let kern = determine_kern(&left, &right, 50, 0, 1);
    let moved = vec![square(155 + kern, 0, 100)];
    let measured = path_distance(&left, &moved).unwrap();
    assert!((50 - measured).abs() <= 10);
}
