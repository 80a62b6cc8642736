use gulzar::oracle::segment_distance;
use gulzar::pathdist::{min_distance_path, path_distance};
use gulzar::{Point, Segment};

fn pt(x: i64, y: i64) -> Point {
    Point { x, y }
}

fn line(x0: i64, y0: i64, x1: i64, y1: i64) -> Segment {
    Segment::Line { p0: pt(x0, y0), p1: pt(x1, y1) }
}

fn quad(x0: i64, y0: i64, cx: i64, cy: i64, x1: i64, y1: i64) -> Segment {
    Segment::Quad { p0: pt(x0, y0), ctrl: pt(cx, cy), p1: pt(x1, y1) }
}

/// An axis-aligned square contour of four line segments.
fn square(x0: i64, y0: i64, side: i64) -> Vec<Segment> {
    vec![
        line(x0, y0, x0 + side, y0),
        line(x0 + side, y0, x0 + side, y0 + side),
        line(x0 + side, y0 + side, x0, y0 + side),
        line(x0, y0 + side, x0, y0),
    ]
}

#[test]
fn distance_is_nonnegative() {
    let a = vec![square(0, 0, 100)];
    let b = vec![square(250, 30, 100)];
    let d = path_distance(&a, &b);
    assert!(d.is_some());
    assert!(d.unwrap() >= 0);
}

#[test]
fn line_line_distance_is_symmetric() {
    let s1 = line(0, 0, 100, 37);
    let s2 = line(200, 50, 260, -40);
    assert_eq!(segment_distance(&s1, &s2), segment_distance(&s2, &s1));
}

#[test]
fn quad_quad_distance_is_symmetric() {
    let q1 = quad(0, 0, 50, 80, 100, 0);
    let q2 = quad(0, 200, 60, 150, 120, 210);
    assert_eq!(segment_distance(&q1, &q2), segment_distance(&q2, &q1));
}

#[test]
fn mixed_pair_is_normalized_before_dispatch() {
    let l = line(0, 30, 100, 30);
    let q = quad(0, 0, 50, 10, 100, 0);
    assert_eq!(segment_distance(&l, &q), segment_distance(&q, &l));
}

#[test]
fn parallel_lines_distance_exact() {
    let s1 = line(0, 0, 100, 0);
    let s2 = line(0, 25, 100, 25);
    assert_eq!(segment_distance(&s1, &s2), 25);
}

#[test]
fn line_quad_distance_exact_for_flat_quad() {
    let l = line(0, 30, 100, 30);
    let q = quad(0, 0, 50, 0, 100, 0);
    assert_eq!(segment_distance(&l, &q), 30);
}

#[test]
fn quad_quad_distance_exact_for_flat_quads() {
    let q1 = quad(0, 0, 50, 0, 100, 0);
    let q2 = quad(0, 40, 50, 40, 100, 40);
    assert_eq!(segment_distance(&q1, &q2), 40);
}

#[test]
fn interior_projection_distance_exact() {
    // The nearest point of (100, 0) on the diagonal from (0, 0) to
    // (100, 100) is interior: exact squared distance 5000, floor of the
    // root 70.
    let diag = line(0, 0, 100, 100);
    let point = line(100, 0, 100, 0);
    assert_eq!(segment_distance(&diag, &point), 70);
}

#[test]
fn no_result_iff_either_side_empty() {
    let some = vec![square(0, 0, 100)];
    let none: Vec<Vec<Segment>> = vec![];
    assert_eq!(path_distance(&none, &some), None);
    assert_eq!(path_distance(&some, &none), None);
    assert_eq!(path_distance(&none, &none), None);
    assert!(path_distance(&some, &some).is_some());
}

#[test]
fn touching_squares_distance_zero() {
    let a = vec![square(0, 0, 100)];
    let b = vec![square(100, 0, 100)];
    assert_eq!(path_distance(&a, &b), Some(0));
}

#[test]
fn known_gap_distance_exact() {
    let a = vec![square(0, 0, 100)];
    let b = vec![square(157, 0, 100)];
    assert_eq!(path_distance(&a, &b), Some(57));
}

#[test]
fn aggregator_takes_minimum_over_all_contour_pairs() {
    let a = vec![square(0, 0, 100)];
    let b = vec![square(150, 0, 100), square(120, 0, 100)];
    assert_eq!(path_distance(&a, &b), Some(20));
}

#[test]
fn empty_contour_in_nonempty_collection_yields_max() {
    let empty: Vec<Segment> = vec![];
    let full = square(0, 0, 100);
    assert_eq!(min_distance_path(&empty, &full), i64::MAX);
    assert_eq!(min_distance_path(&full, &empty), i64::MAX);
}
