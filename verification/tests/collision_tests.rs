use gulzar::{GlyphClasses, GlyphExtents, GulzarGlyph, Point, Segment};

fn line(x0: i64, y0: i64, x1: i64, y1: i64) -> Segment {
    Segment::Line { p0: Point { x: x0, y: y0 }, p1: Point { x: x1, y: y1 } }
}

fn square(x0: i64, y0: i64, side: i64) -> Vec<Segment> {
    vec![
        line(x0, y0, x0 + side, y0),
        line(x0 + side, y0, x0 + side, y0 + side),
        line(x0 + side, y0 + side, x0, y0 + side),
        line(x0, y0 + side, x0, y0),
    ]
}

/// A glyph holding a 100-unit square at the origin of its design space,
/// positioned by `x_total_advance`.
fn square_glyph(x_total_advance: i32) -> GulzarGlyph {
    GulzarGlyph {
        codepoint: 0,
        name: String::new(),
        paths: vec![square(0, 0, 100)],
        classes: GlyphClasses::default(),
        cluster: 0,
        x_advance: 0,
        x_total_advance,
        y_advance: 0,
        x_offset: 0,
        y_offset: 0,
        in_bari_ye: false,
    }
}

/// Extents matching the square: x range [0, 100], top 100, bottom 0.
fn square_extents() -> GlyphExtents {
    GlyphExtents { x_bearing: 0, y_bearing: 100, width: 100, height: -100 }
}

#[test]
fn bounding_box_positions_extents() {
    let g = square_glyph(40);
    let r = g.bounding_box(&square_extents());
    assert_eq!((r.x0, r.y0, r.x1, r.y1), (40, 0, 140, 100));
}

#[test]
fn positioned_paths_translate_by_total_advance_and_offset() {
    let mut g = square_glyph(40);
    g.x_offset = 5;
    g.y_offset = -7;
    let paths = g.positioned_paths();
    assert_eq!(paths.len(), 1);
    match paths[0][0] {
        Segment::Line { p0, p1 } => {
            assert_eq!((p0.x, p0.y), (45, -7));
            assert_eq!((p1.x, p1.y), (145, -7));
        },
        _ => panic!("expected a line segment"),
    }
}

#[test]
fn disjoint_bounding_boxes_never_collide() {
    // The extents place the boxes far apart, so the answer is false
    // regardless of the contours (which would themselves overlap here).
    let a = square_glyph(0);
    let b = square_glyph(0);
    let far = GlyphExtents { x_bearing: 5000, y_bearing: 100, width: 100, height: -100 };
    assert!(!a.collides(&b, &square_extents(), &far, 1));
}

#[test]
fn squares_with_ten_percent_overlap_collide() {
    // Second square shifted to [90, 190]: 10% shared area.
    let a = square_glyph(0);
    let b = square_glyph(90);
    assert!(a.collides(&b, &square_extents(), &square_extents(), 1));
}

#[test]
fn squares_separated_by_gap_do_not_collide() {
    // Second square at [300, 400]: a 200-unit gap.
    let a = square_glyph(0);
    let b = square_glyph(300);
    assert!(!a.collides(&b, &square_extents(), &square_extents(), 1));
}

#[test]
fn touching_boxes_have_zero_intersection_area() {
    // Boxes sharing only an edge have intersection area exactly 0 and
    // are rejected by the pre-filter.
    let a = square_glyph(0);
    let b = square_glyph(100);
    assert!(!a.collides(&b, &square_extents(), &square_extents(), 1));
}

#[test]
fn curved_contour_collides_after_flattening() {
    // A tall arch crossing the other square's edges.
    let arch = vec![vec![
        line(0, 0, 100, 0),
        Segment::Quad {
            p0: Point { x: 100, y: 0 },
            ctrl: Point { x: 50, y: 400 },
            p1: Point { x: 0, y: 0 },
        },
    ]];
    let mut a = square_glyph(0);
    a.paths = arch;
    let b = square_glyph(20);
    let arch_extents = GlyphExtents { x_bearing: 0, y_bearing: 200, width: 100, height: -200 };
    assert!(a.collides(&b, &arch_extents, &square_extents(), 1));
}

#[test]
fn class_flags_are_returned_unchanged() {
    let mut g = square_glyph(0);
    g.classes = GlyphClasses {
        dot_below: true,
        dot_above: false,
        bari_ye: true,
        init: false,
        isol: true,
        fina: false,
        space: true,
    };
    assert!(g.is_dot_below());
    assert!(!g.is_dot_above());
    assert!(g.is_bari_ye());
    assert!(!g.is_init());
    assert!(g.is_isol());
    assert!(!g.is_fina());
    assert!(g.is_space());
}
