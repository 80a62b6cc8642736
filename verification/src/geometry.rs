//! Points, segments and contours in integer font design units.

use vstd::prelude::*;

verus! {

/// Coordinate bound accepted by the distance and collision routines; keeps
/// every intermediate product of the squared-distance arithmetic inside
/// `i128`.
pub const COORD_BOUND: i64 = 0x2000_0000;

/// A 2D point in font design units.
#[derive(Clone, Copy, PartialEq, Eq, Structural, Debug)]
pub struct Point {
    pub x: i64,
    pub y: i64,
}

/// One outline segment of a contour: a straight line or a quadratic
/// curve with a single control point. Cubic segments are not modeled.
#[derive(Clone, Copy, PartialEq, Eq, Structural, Debug)]
pub enum Segment {
    Line { p0: Point, p1: Point },
    Quad { p0: Point, ctrl: Point, p1: Point },
}

/// Squared Euclidean distance between two points, as an unbounded integer.
pub open spec fn dist_sq(a: Point, b: Point) -> int {
    (a.x - b.x) * (a.x - b.x) + (a.y - b.y) * (a.y - b.y)
}

/// Squared distance between two integer coordinate pairs.
pub open spec fn pair_dist_sq(a: (int, int), b: (int, int)) -> int {
    (a.0 - b.0) * (a.0 - b.0) + (a.1 - b.1) * (a.1 - b.1)
}

pub proof fn lemma_pair_dist_sq_nonneg(a: (int, int), b: (int, int))
    ensures
        pair_dist_sq(a, b) >= 0,
        pair_dist_sq(a, b) == pair_dist_sq(b, a),
{
    assert((a.0 - b.0) * (a.0 - b.0) >= 0) by (nonlinear_arith);
    assert((a.1 - b.1) * (a.1 - b.1) >= 0) by (nonlinear_arith);
    assert((a.0 - b.0) * (a.0 - b.0) == (b.0 - a.0) * (b.0 - a.0)) by (nonlinear_arith);
    assert((a.1 - b.1) * (a.1 - b.1) == (b.1 - a.1) * (b.1 - a.1)) by (nonlinear_arith);
}

/// A point lies within `b` design units of the origin on both axes.
pub open spec fn pt_in_bounds(p: Point, b: int) -> bool {
    -b <= p.x <= b && -b <= p.y <= b
}

pub open spec fn seg_in_bounds(s: Segment, b: int) -> bool {
    match s {
        Segment::Line { p0, p1 } => pt_in_bounds(p0, b) && pt_in_bounds(p1, b),
        Segment::Quad { p0, ctrl, p1 } => pt_in_bounds(p0, b) && pt_in_bounds(ctrl, b)
            && pt_in_bounds(p1, b),
    }
}

pub open spec fn path_in_bounds(p: Seq<Segment>, b: int) -> bool {
    forall|i: int| 0 <= i < p.len() ==> seg_in_bounds(#[trigger] p[i], b)
}

pub open spec fn paths_in_bounds(ps: Seq<Seq<Segment>>, b: int) -> bool {
    forall|i: int| 0 <= i < ps.len() ==> path_in_bounds(#[trigger] ps[i], b)
}

/// Every contour of the collection holds at least one segment.
pub open spec fn paths_nonempty(ps: Seq<Seq<Segment>>) -> bool {
    forall|i: int| 0 <= i < ps.len() ==> (#[trigger] ps[i]).len() > 0
}

/// The mathematical view of a collection of contours.
pub open spec fn paths_view(v: Seq<Vec<Segment>>) -> Seq<Seq<Segment>> {
    Seq::new(v.len(), |i: int| v[i]@)
}

/// Translation of a point by an integer vector.
pub open spec fn translate_pt(p: Point, dx: int, dy: int) -> Point {
    Point { x: (p.x + dx) as i64, y: (p.y + dy) as i64 }
}

pub open spec fn translate_seg(s: Segment, dx: int, dy: int) -> Segment {
    match s {
        Segment::Line { p0, p1 } => Segment::Line {
            p0: translate_pt(p0, dx, dy),
            p1: translate_pt(p1, dx, dy),
        },
        Segment::Quad { p0, ctrl, p1 } => Segment::Quad {
            p0: translate_pt(p0, dx, dy),
            ctrl: translate_pt(ctrl, dx, dy),
            p1: translate_pt(p1, dx, dy),
        },
    }
}

pub open spec fn translate_path(p: Seq<Segment>, dx: int, dy: int) -> Seq<Segment> {
    p.map_values(|s: Segment| translate_seg(s, dx, dy))
}

pub open spec fn translate_paths(ps: Seq<Seq<Segment>>, dx: int, dy: int) -> Seq<Seq<Segment>> {
    ps.map_values(|p: Seq<Segment>| translate_path(p, dx, dy))
}

/// Translate every contour of a collection by `(dx, dy)`, returning a
/// fresh deep copy; the argument is never altered. The ghost bound `cb`
/// on the input coordinates guarantees the translated copy stays within
/// `COORD_BOUND`.
pub fn translate_paths_exec(
    ps: &Vec<Vec<Segment>>,
    dx: i64,
    dy: i64,
    Ghost(cb): Ghost<int>,
) -> (r: Vec<Vec<Segment>>)
    requires
        0 <= cb,
        paths_in_bounds(paths_view(ps@), cb),
        cb + dx <= COORD_BOUND as int,
        -(COORD_BOUND as int) <= -cb + dx,
        cb + dy <= COORD_BOUND as int,
        -(COORD_BOUND as int) <= -cb + dy,
    ensures
        paths_view(r@) == translate_paths(paths_view(ps@), dx as int, dy as int),
        paths_in_bounds(paths_view(r@), COORD_BOUND as int),
        r@.len() == ps@.len(),
        forall|i: int| 0 <= i < ps@.len() ==> (#[trigger] r@[i])@.len() == ps@[i]@.len(),
{
    let ghost pv = paths_view(ps@);
    let mut out: Vec<Vec<Segment>> = Vec::new();
    let mut i: usize = 0;
    while i < ps.len()
        invariant
            i <= ps@.len(),
            out@.len() == i,
            0 <= cb,
            pv == paths_view(ps@),
            paths_in_bounds(pv, cb),
            cb + dx <= COORD_BOUND as int,
            -(COORD_BOUND as int) <= -cb + dx,
            cb + dy <= COORD_BOUND as int,
            -(COORD_BOUND as int) <= -cb + dy,
            forall|k: int|
                0 <= k < i ==> (#[trigger] out@[k])@ == translate_path(pv[k], dx as int, dy as int),
            forall|k: int| 0 <= k < i ==> path_in_bounds((#[trigger] out@[k])@, COORD_BOUND as int),
            forall|k: int| 0 <= k < i ==> (#[trigger] out@[k])@.len() == ps@[k]@.len(),
        decreases ps@.len() - i,
    {
        let p: &Vec<Segment> = &ps[i];
        proof {
            assert(pv[i as int] == ps@[i as int]@);
            assert(path_in_bounds(pv[i as int], cb));
        }
        let mut q: Vec<Segment> = Vec::new();
        let mut j: usize = 0;
        while j < p.len()
            invariant
                j <= p@.len(),
                q@.len() == j,
                0 <= cb,
                path_in_bounds(p@, cb),
                cb + dx <= COORD_BOUND as int,
                -(COORD_BOUND as int) <= -cb + dx,
                cb + dy <= COORD_BOUND as int,
                -(COORD_BOUND as int) <= -cb + dy,
                forall|k: int|
                    0 <= k < j ==> q@[k] == translate_seg(#[trigger] p@[k], dx as int, dy as int),
                forall|k: int| 0 <= k < j ==> seg_in_bounds(#[trigger] q@[k], COORD_BOUND as int),
            decreases p@.len() - j,
        {
            let s: Segment = p[j];
            let t: Segment = match s {
                Segment::Line { p0, p1 } => Segment::Line {
                    p0: Point { x: p0.x + dx, y: p0.y + dy },
                    p1: Point { x: p1.x + dx, y: p1.y + dy },
                },
                Segment::Quad { p0, ctrl, p1 } => Segment::Quad {
                    p0: Point { x: p0.x + dx, y: p0.y + dy },
                    ctrl: Point { x: ctrl.x + dx, y: ctrl.y + dy },
                    p1: Point { x: p1.x + dx, y: p1.y + dy },
                },
            };
            q.push(t);
            j += 1;
        }
        proof {
            assert(q@ =~= translate_path(p@, dx as int, dy as int));
        }
        out.push(q);
        i += 1;
    }
    proof {
        assert(paths_view(out@) =~~= translate_paths(paths_view(ps@), dx as int, dy as int));
    }
    out
}

/// Minimum of two integers.
pub open spec fn min2(a: int, b: int) -> int {
    if a <= b {
        a
    } else {
        b
    }
}

/// Minimum of `f(0), ..., f(n - 1)` (just `f(0)` when `n <= 1`).
pub open spec fn min_over(f: spec_fn(int) -> int, n: nat) -> int
    decreases n,
{
    if n <= 1 {
        f(0)
    } else {
        min2(min_over(f, (n - 1) as nat), f(n - 1))
    }
}

pub proof fn lemma_min_over_le(f: spec_fn(int) -> int, n: nat, i: int)
    requires
        0 <= i < n,
    ensures
        min_over(f, n) <= f(i),
    decreases n,
{
    if n > 1 && i < n - 1 {
        lemma_min_over_le(f, (n - 1) as nat, i);
    }
}

pub proof fn lemma_min_over_attained(f: spec_fn(int) -> int, n: nat)
    requires
        n >= 1,
    ensures
        exists|i: int| 0 <= i < n && min_over(f, n) == #[trigger] f(i),
    decreases n,
{
    if n == 1 {
        assert(min_over(f, n) == f(0));
    } else {
        lemma_min_over_attained(f, (n - 1) as nat);
        if min_over(f, n) != f(n - 1) {
            let j = choose|i: int| 0 <= i < n - 1 && min_over(f, (n - 1) as nat) == #[trigger] f(i);
            assert(min_over(f, n) == f(j));
        }
    }
}

} // verus!
