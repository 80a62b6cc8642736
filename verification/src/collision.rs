//! Collision detection: bounding-box pre-filter, curve flattening and
//! exhaustive polyline edge-intersection testing.

use vstd::prelude::*;
use crate::geometry::{
    Point, Segment, pt_in_bounds, seg_in_bounds, path_in_bounds, COORD_BOUND,
};
use crate::sqrt::{sqrt_floor, lemma_sqrt_floor_bounds, isqrt_u128};
use crate::oracle::lemma_abs_mul;
use vstd::math::abs;
use vstd::arithmetic::div_mod::{
    lemma_div_is_ordered, lemma_div_multiples_vanish, lemma_div_pos_is_pos,
    lemma_hoist_over_denominator,
};

verus! {

/// An axis-aligned rectangle with `x0 <= x1` and `y0 <= y1`.
#[derive(Clone, Copy, PartialEq, Eq, Structural, Debug)]
pub struct Rect {
    pub x0: i64,
    pub y0: i64,
    pub x1: i64,
    pub y1: i64,
}

/// Two rectangles overlap with strictly positive intersection area.
pub open spec fn rects_overlap(a: Rect, b: Rect) -> bool {
    vstd::math::max(a.x0 as int, b.x0 as int) < vstd::math::min(a.x1 as int, b.x1 as int)
        && vstd::math::max(a.y0 as int, b.y0 as int) < vstd::math::min(a.y1 as int, b.y1 as int)
}

/// The maximum axis-wise second difference of a quad's control polygon;
/// the curve deviates from its chord by at most a quarter of this.
pub open spec fn quad_dev(p0: Point, ctrl: Point, p1: Point) -> int {
    vstd::math::max(
        abs(p0.x - 2 * ctrl.x + p1.x) as int,
        abs(p0.y - 2 * ctrl.y + p1.y) as int,
    )
}

/// Number of equal subdivisions that flatten a quad with deviation `m`
/// to within tolerance `tol`: the least `n >= 1` with `m <= 4*tol*n^2`,
/// computed through a ceiling division and an integer square root.
pub open spec fn subdiv_count(m: int, tol: int) -> int {
    let q = (m + 4 * tol - 1) / (4 * tol);
    let s = sqrt_floor(q);
    if s * s >= q {
        if s >= 1 {
            s
        } else {
            1
        }
    } else {
        s + 1
    }
}

/// The flattened point of a quad at parameter `j / n`, with each
/// coordinate rounded down.
pub open spec fn quad_flat_pt(p0: Point, ctrl: Point, p1: Point, n: int, j: int) -> Point {
    let u = n - j;
    Point {
        x: ((u * u * p0.x + 2 * j * u * ctrl.x + j * j * p1.x) / (n * n)) as i64,
        y: ((u * u * p0.y + 2 * j * u * ctrl.y + j * j * p1.y) / (n * n)) as i64,
    }
}

/// The polyline points a segment contributes: its start point, plus the
/// interior flattening points of a quad. The segment's end point is the
/// next segment's start in a closed contour.
pub open spec fn seg_flat_pts(s: Segment, tol: int) -> Seq<Point> {
    match s {
        Segment::Line { p0, p1 } => seq![p0],
        Segment::Quad { p0, ctrl, p1 } => {
            let n = subdiv_count(quad_dev(p0, ctrl, p1), tol);
            seq![p0] + Seq::new((n - 1) as nat, |j: int| quad_flat_pt(p0, ctrl, p1, n, j + 1))
        },
    }
}

/// The polyline of a whole contour, in segment order.
pub open spec fn spec_flatten_path(p: Seq<Segment>, tol: int) -> Seq<Point>
    decreases p.len(),
{
    if p.len() == 0 {
        Seq::empty()
    } else {
        spec_flatten_path(p.drop_last(), tol) + seg_flat_pts(p.last(), tol)
    }
}

/// Exact crossing test for the closed segments `p1p2` and `p3p4`:
/// a non-parallel pair meeting at parameters within [0, 1] on both
/// segments. Parallel (and collinear) pairs report no crossing.
pub open spec fn spec_segs_intersect(p1: Point, p2: Point, p3: Point, p4: Point) -> bool {
    let d1x = p2.x - p1.x;
    let d1y = p2.y - p1.y;
    let d2x = p4.x - p3.x;
    let d2y = p4.y - p3.y;
    let det = d1x * d2y - d1y * d2x;
    let ex = p3.x - p1.x;
    let ey = p3.y - p1.y;
    let tn = ex * d2y - ey * d2x;
    let un = ex * d1y - ey * d1x;
    if det == 0 {
        false
    } else if det > 0 {
        0 <= tn && tn <= det && 0 <= un && un <= det
    } else {
        det <= tn && tn <= 0 && det <= un && un <= 0
    }
}

pub(crate) fn segs_intersect_exec(p1: Point, p2: Point, p3: Point, p4: Point) -> (r: bool)
    requires
        pt_in_bounds(p1, COORD_BOUND as int),
        pt_in_bounds(p2, COORD_BOUND as int),
        pt_in_bounds(p3, COORD_BOUND as int),
        pt_in_bounds(p4, COORD_BOUND as int),
    ensures
        r == spec_segs_intersect(p1, p2, p3, p4),
{
    let d1x: i128 = p2.x as i128 - p1.x as i128;
    let d1y: i128 = p2.y as i128 - p1.y as i128;
    let d2x: i128 = p4.x as i128 - p3.x as i128;
    let d2y: i128 = p4.y as i128 - p3.y as i128;
    let ex: i128 = p3.x as i128 - p1.x as i128;
    let ey: i128 = p3.y as i128 - p1.y as i128;
    proof {
        lemma_abs_mul(d1x as int, d2y as int, 0x4000_0000, 0x4000_0000);
        lemma_abs_mul(d1y as int, d2x as int, 0x4000_0000, 0x4000_0000);
        lemma_abs_mul(ex as int, d2y as int, 0x4000_0000, 0x4000_0000);
        lemma_abs_mul(ey as int, d2x as int, 0x4000_0000, 0x4000_0000);
        lemma_abs_mul(ex as int, d1y as int, 0x4000_0000, 0x4000_0000);
        lemma_abs_mul(ey as int, d1x as int, 0x4000_0000, 0x4000_0000);
    }
    let det: i128 = d1x * d2y - d1y * d2x;
    let tn: i128 = ex * d2y - ey * d2x;
    let un: i128 = ex * d1y - ey * d1x;
    if det == 0 {
        false
    } else if det > 0 {
        0 <= tn && tn <= det && 0 <= un && un <= det
    } else {
        det <= tn && tn <= 0 && det <= un && un <= 0
    }
}

/// Whether circular edge `i` of polyline `a` crosses circular edge `j`
/// of polyline `b`.
pub open spec fn edges_intersect_at(a: Seq<Point>, b: Seq<Point>, i: int, j: int) -> bool {
    spec_segs_intersect(
        a[i],
        a[(i + 1) % a.len() as int],
        b[j],
        b[(j + 1) % b.len() as int],
    )
}

/// Some pair of circular polyline edges crosses.
pub open spec fn spec_polys_intersect(a: Seq<Point>, b: Seq<Point>) -> bool {
    exists|i: int, j: int|
        0 <= i < a.len() && 0 <= j < b.len() && #[trigger] edges_intersect_at(a, b, i, j)
}

/// Whether two flattened contours cross, at tolerance `tol`.
pub open spec fn spec_intersects(p1: Seq<Segment>, p2: Seq<Segment>, tol: int) -> bool {
    spec_polys_intersect(spec_flatten_path(p1, tol), spec_flatten_path(p2, tol))
}

/// One rounded coordinate of a quad flattening point.
fn quad_eval_axis(a: i64, c: i64, b: i64, n: i64, j: i64) -> (r: i64)
    requires
        -(COORD_BOUND as int) <= a <= COORD_BOUND as int,
        -(COORD_BOUND as int) <= c <= COORD_BOUND as int,
        -(COORD_BOUND as int) <= b <= COORD_BOUND as int,
        1 <= n <= 0x2_0000,
        0 <= j <= n,
    ensures
        r as int == ((n - j) * (n - j) * a + 2 * j * (n - j) * c + j * j * b) / (n * n),
        -(COORD_BOUND as int) <= r <= COORD_BOUND as int,
{
    let u: i128 = (n - j) as i128;
    let jj: i128 = j as i128;
    let nn: i128 = n as i128;
    proof {
        lemma_abs_mul(u as int, u as int, 0x2_0000, 0x2_0000);
        lemma_abs_mul(2 * jj, u as int, 0x4_0000, 0x2_0000);
        lemma_abs_mul(jj as int, jj as int, 0x2_0000, 0x2_0000);
        lemma_abs_mul(nn as int, nn as int, 0x2_0000, 0x2_0000);
    }
    let a1: i128 = u * u;
    let a2: i128 = 2 * jj * u;
    let a3: i128 = jj * jj;
    let n2: i128 = nn * nn;
    proof {
        assert(a1 >= 0) by (nonlinear_arith)
            requires a1 == u * u;
        assert(a2 >= 0) by (nonlinear_arith)
            requires a2 == 2 * jj * u && jj >= 0 && u >= 0;
        assert(a3 >= 0) by (nonlinear_arith)
            requires a3 == jj * jj;
        assert(n2 > 0) by (nonlinear_arith)
            requires n2 == nn * nn && nn >= 1;
        assert(a1 + a2 + a3 == n2) by (nonlinear_arith)
            requires a1 == u * u && a2 == 2 * jj * u && a3 == jj * jj && n2 == nn * nn && nn == u
                + jj;
        lemma_abs_mul(a1 as int, a as int, 0x4_0000_0000, COORD_BOUND as int);
        lemma_abs_mul(a2 as int, c as int, 0x4_0000_0000, COORD_BOUND as int);
        lemma_abs_mul(a3 as int, b as int, 0x4_0000_0000, COORD_BOUND as int);
    }
    let x: i128 = a1 * (a as i128) + a2 * (c as i128) + a3 * (b as i128);
    proof {
        assert(x <= n2 * (COORD_BOUND as int) && -(n2 * (COORD_BOUND as int)) <= x)
            by (nonlinear_arith)
            requires
                a1 >= 0 && a2 >= 0 && a3 >= 0 && a1 + a2 + a3 == n2
                    && -(COORD_BOUND as int) <= a <= COORD_BOUND as int
                    && -(COORD_BOUND as int) <= c <= COORD_BOUND as int
                    && -(COORD_BOUND as int) <= b <= COORD_BOUND as int
                    && x == a1 * a + a2 * c + a3 * b;
        assert(n2 * 0x4000_0000 == n2 * (COORD_BOUND as int) + n2 * (COORD_BOUND as int))
            by (nonlinear_arith);
    }
    let shifted: i128 = x + n2 * 0x4000_0000;
    let q: u128 = (shifted as u128) / (n2 as u128);
    proof {
        lemma_hoist_over_denominator(x as int, 0x4000_0000, n2 as nat);
        assert(x + 0x4000_0000 * (n2 as int) == shifted as int);
        lemma_div_is_ordered(x as int, n2 * (COORD_BOUND as int), n2 as int);
        lemma_div_multiples_vanish(COORD_BOUND as int, n2 as int);
        assert(n2 * -(COORD_BOUND as int) == -(n2 * (COORD_BOUND as int))) by (nonlinear_arith);
        lemma_div_is_ordered(n2 * -(COORD_BOUND as int), x as int, n2 as int);
        lemma_div_multiples_vanish(-(COORD_BOUND as int), n2 as int);
    }
    let r: i64 = (q as i128 - 0x4000_0000) as i64;
    r
}

/// Subdivision count for one quad, from its deviation `m` and the
/// flattening tolerance.
fn subdiv_count_exec(m: i64, tol: i64) -> (n: i64)
    requires
        0 <= m <= 0x1_0000_0000,
        1 <= tol <= 0x8000_0000,
    ensures
        n == subdiv_count(m as int, tol as int),
        1 <= n <= 0x2_0000,
{
    let denom: u64 = 4 * (tol as u64);
    let q: u64 = ((m as u64) + denom - 1) / denom;
    proof {
        assert(q as int == (m + 4 * (tol as int) - 1) / (4 * (tol as int)));
        lemma_div_pos_is_pos(m + 4 * (tol as int) - 1, 4 * (tol as int));
        vstd::arithmetic::div_mod::lemma_div_is_ordered_by_denominator(
            m + 4 * (tol as int) - 1,
            4,
            4 * (tol as int),
        );
        lemma_div_is_ordered(m + 4 * (tol as int) - 1, 0x6_0000_0000, 4);
        assert(q as int <= 0x1_8000_0000);
    }
    let s: u64 = isqrt_u128(q as u128);
    proof {
        lemma_sqrt_floor_bounds(q as int);
        assert((s as int) < 0x2_0000) by {
            if s as int >= 0x2_0000 {
                assert((s as int) * (s as int) >= 0x4_0000_0000) by (nonlinear_arith)
                    requires s as int >= 0x2_0000;
            }
        }
    }
    let sq: u64 = s * s;
    if sq >= q {
        if s >= 1 {
            s as i64
        } else {
            1
        }
    } else {
        (s as i64) + 1
    }
}

/// Flatten a contour into its polyline at tolerance `tol`: line
/// segments contribute their start point, quads additionally contribute
/// their interior subdivision points.
pub fn flatten_path(p: &Vec<Segment>, tol: i64) -> (pts: Vec<Point>)
    requires
        path_in_bounds(p@, COORD_BOUND as int),
        1 <= tol <= 0x8000_0000,
    ensures
        pts@ == spec_flatten_path(p@, tol as int),
        forall|k: int| 0 <= k < pts@.len() ==> pt_in_bounds(#[trigger] pts@[k], COORD_BOUND as int),
{
    let mut pts: Vec<Point> = Vec::new();
    let mut i: usize = 0;
    while i < p.len()
        invariant
            i <= p@.len(),
            path_in_bounds(p@, COORD_BOUND as int),
            1 <= tol <= 0x8000_0000,
            pts@ == spec_flatten_path(p@.take(i as int), tol as int),
            forall|k: int|
                0 <= k < pts@.len() ==> pt_in_bounds(#[trigger] pts@[k], COORD_BOUND as int),
        decreases p@.len() - i,
    {
        let ghost prefix = pts@;
        let s: Segment = p[i];
        match s {
            Segment::Line { p0, p1: _ } => {
                pts.push(p0);
            },
            Segment::Quad { p0, ctrl, p1 } => {
                pts.push(p0);
                let axv: i128 = p0.x as i128 - 2 * (ctrl.x as i128) + p1.x as i128;
                let ayv: i128 = p0.y as i128 - 2 * (ctrl.y as i128) + p1.y as i128;
                let axa: i128 = if axv < 0 {
                    -axv
                } else {
                    axv
                };
                let aya: i128 = if ayv < 0 {
                    -ayv
                } else {
                    ayv
                };
                let m: i64 = if axa >= aya {
                    axa as i64
                } else {
                    aya as i64
                };
                proof {
                    assert(m as int == quad_dev(p0, ctrl, p1));
                }
                let n: i64 = subdiv_count_exec(m, tol);
                let mut j: i64 = 1;
                while j < n
                    invariant
                        1 <= j <= n,
                        1 <= n <= 0x2_0000,
                        n as int == subdiv_count(quad_dev(p0, ctrl, p1), tol as int),
                        pt_in_bounds(p0, COORD_BOUND as int),
                        pt_in_bounds(ctrl, COORD_BOUND as int),
                        pt_in_bounds(p1, COORD_BOUND as int),
                        1 <= tol <= 0x8000_0000,
                        pts@ == prefix + seq![p0] + Seq::new(
                            (j - 1) as nat,
                            |t: int| quad_flat_pt(p0, ctrl, p1, n as int, t + 1),
                        ),
                        forall|k: int|
                            0 <= k < pts@.len() ==> pt_in_bounds(
                                #[trigger] pts@[k],
                                COORD_BOUND as int,
                            ),
                    decreases n - j,
                {
                    let x: i64 = quad_eval_axis(p0.x, ctrl.x, p1.x, n, j);
                    let y: i64 = quad_eval_axis(p0.y, ctrl.y, p1.y, n, j);
                    let ghost before = pts@;
                    pts.push(Point { x, y });
                    proof {
                        assert(Point { x, y } == quad_flat_pt(p0, ctrl, p1, n as int, j as int));
                        assert(pts@ =~= prefix + seq![p0] + Seq::new(
                            j as nat,
                            |t: int| quad_flat_pt(p0, ctrl, p1, n as int, t + 1),
                        ));
                    }
                    j += 1;
                }
            },
        }
        proof {
            assert(p@.take(i as int + 1).drop_last() =~= p@.take(i as int));
            assert(p@.take(i as int + 1).last() == p@[i as int]);
            assert(pts@ =~= spec_flatten_path(p@.take(i as int + 1), tol as int));
        }
        i += 1;
    }
    proof {
        assert(p@.take(p@.len() as int) =~= p@);
    }
    pts
}

/// Exhaustive edge test between the flattened polylines of two
/// contours: true exactly when some circular edge pair crosses.
pub fn intersects(b1: &Vec<Segment>, b2: &Vec<Segment>, tol: i64) -> (r: bool)
    requires
        path_in_bounds(b1@, COORD_BOUND as int),
        path_in_bounds(b2@, COORD_BOUND as int),
        1 <= tol <= 0x8000_0000,
    ensures
        r == spec_intersects(b1@, b2@, tol as int),
{
    let pts1 = flatten_path(b1, tol);
    let pts2 = flatten_path(b2, tol);
    let ghost av = pts1@;
    let ghost bv = pts2@;
    let n1: usize = pts1.len();
    let n2: usize = pts2.len();
    if n1 == 0 || n2 == 0 {
        return false;
    }
    let mut i: usize = 0;
    while i < n1
        invariant
            i <= n1,
            n1 == av.len(),
            n2 == bv.len(),
            0 < n1,
            0 < n2,
            av == pts1@,
            bv == pts2@,
            av == spec_flatten_path(b1@, tol as int),
            bv == spec_flatten_path(b2@, tol as int),
            forall|k: int| 0 <= k < av.len() ==> pt_in_bounds(#[trigger] av[k], COORD_BOUND as int),
            forall|k: int| 0 <= k < bv.len() ==> pt_in_bounds(#[trigger] bv[k], COORD_BOUND as int),
            forall|ii: int, jj: int|
                0 <= ii < i && 0 <= jj < bv.len() ==> !#[trigger] edges_intersect_at(av, bv, ii, jj),
        decreases n1 - i,
    {
        let mut j: usize = 0;
        while j < n2
            invariant
                i < n1,
                j <= n2,
                n1 == av.len(),
                n2 == bv.len(),
                0 < n1,
                0 < n2,
                av == pts1@,
                bv == pts2@,
                av == spec_flatten_path(b1@, tol as int),
                bv == spec_flatten_path(b2@, tol as int),
                forall|k: int|
                    0 <= k < av.len() ==> pt_in_bounds(#[trigger] av[k], COORD_BOUND as int),
                forall|k: int|
                    0 <= k < bv.len() ==> pt_in_bounds(#[trigger] bv[k], COORD_BOUND as int),
                forall|ii: int, jj: int|
                    0 <= ii < i && 0 <= jj < bv.len() ==> !#[trigger] edges_intersect_at(
                        av,
                        bv,
                        ii,
                        jj,
                    ),
                forall|jj: int|
                    0 <= jj < j ==> !#[trigger] edges_intersect_at(av, bv, i as int, jj),
            decreases n2 - j,
        {
            let e1a = pts1[i];
            let e1b = pts1[(i + 1) % n1];
            let e2a = pts2[j];
            let e2b = pts2[(j + 1) % n2];
            if segs_intersect_exec(e1a, e1b, e2a, e2b) {
                proof {
                    assert(edges_intersect_at(av, bv, i as int, j as int));
                }
                return true;
            }
            j += 1;
        }
        i += 1;
    }
    false
}

} // verus!
