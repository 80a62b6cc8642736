//! Segment distance oracle: minimum distance between two outline
//! segments, dispatched by segment-type pair.
//!
//! All results are floors of exact Euclidean distances computed over
//! integer coordinates. Line-line distance projects each endpoint of one
//! segment onto the other (clamped to the segment) exactly. Curve cases
//! sample the quadratic on a fixed tenths grid and the line at the
//! asymmetric parameter set {0, 0.2, 0.4, 0.6, 0.8, 0.99}; both are
//! documented fixed-precision estimators, not exact minima.

use vstd::prelude::*;
use crate::geometry::{
    Point, Segment, dist_sq, pair_dist_sq, pt_in_bounds, seg_in_bounds, min2, min_over,
    lemma_min_over_le, lemma_min_over_attained, lemma_pair_dist_sq_nonneg, COORD_BOUND,
};
use crate::sqrt::{sqrt_floor, lemma_sqrt_floor_bounds, isqrt_i128};
use vstd::arithmetic::div_mod::{
    lemma_div_is_ordered, lemma_div_by_multiple, lemma_div_pos_is_pos,
    lemma_fundamental_div_mod, lemma_fundamental_div_mod_converse,
    lemma_mod_division_less_than_divisor,
};

verus! {

/// `|a| <= ca` and `|b| <= cb` bound the product `a * b` by `ca * cb`.
pub proof fn lemma_abs_mul(a: int, b: int, ca: int, cb: int)
    requires
        -ca <= a <= ca,
        -cb <= b <= cb,
    ensures
        -(ca * cb) <= a * b <= ca * cb,
{
    assert(-(ca * cb) <= a * b <= ca * cb) by (nonlinear_arith)
        requires -ca <= a <= ca && -cb <= b <= cb;
}

/// Lagrange's identity in two dimensions; it shows the projection
/// numerator of the point-segment distance is a perfect square.
pub proof fn lemma_lagrange(wx: int, wy: int, dx: int, dy: int)
    ensures
        (wx * wx + wy * wy) * (dx * dx + dy * dy) - (wx * dx + wy * dy) * (wx * dx + wy * dy) == (
        wx * dy - wy * dx) * (wx * dy - wy * dx),
        (wx * dy - wy * dx) * (wx * dy - wy * dx) >= 0,
{
    assert((wx * dx) * (wx * dx) == (wx * wx) * (dx * dx)) by (nonlinear_arith);
    assert((wy * dy) * (wy * dy) == (wy * wy) * (dy * dy)) by (nonlinear_arith);
    assert((wx * dy) * (wx * dy) == (wx * wx) * (dy * dy)) by (nonlinear_arith);
    assert((wy * dx) * (wy * dx) == (wy * wy) * (dx * dx)) by (nonlinear_arith);
    assert((wx * dx) * (wy * dy) == (wx * dy) * (wy * dx)) by (nonlinear_arith);
    assert((wx * wx + wy * wy) * (dx * dx + dy * dy) == (wx * wx) * (dx * dx) + (wx * wx) * (dy
        * dy) + (wy * wy) * (dx * dx) + (wy * wy) * (dy * dy)) by (nonlinear_arith);
    assert((wx * dx + wy * dy) * (wx * dx + wy * dy) == (wx * dx) * (wx * dx) + 2 * ((wx * dx)
        * (wy * dy)) + (wy * dy) * (wy * dy)) by (nonlinear_arith);
    assert((wx * dy - wy * dx) * (wx * dy - wy * dx) == (wx * dy) * (wx * dy) - 2 * ((wx * dy)
        * (wy * dx)) + (wy * dx) * (wy * dx)) by (nonlinear_arith);
    assert((wx * dy - wy * dx) * (wx * dy - wy * dx) >= 0) by (nonlinear_arith);
}

/// Floor of the exact squared distance between point `p` and the segment
/// from `a` to `b` (the projection parameter is clamped to [0, 1]).
pub open spec fn point_seg_dist_sq(p: Point, a: Point, b: Point) -> int {
    let dx = b.x - a.x;
    let dy = b.y - a.y;
    let wx = p.x - a.x;
    let wy = p.y - a.y;
    let len2 = dx * dx + dy * dy;
    let dot = wx * dx + wy * dy;
    if len2 == 0 || dot <= 0 {
        wx * wx + wy * wy
    } else if dot >= len2 {
        dist_sq(p, b)
    } else {
        ((wx * wx + wy * wy) * len2 - dot * dot) / len2
    }
}

pub proof fn lemma_point_seg_dist_sq_nonneg(p: Point, a: Point, b: Point)
    ensures
        point_seg_dist_sq(p, a, b) >= 0,
{
    let dx = b.x - a.x;
    let dy = b.y - a.y;
    let wx = p.x - a.x;
    let wy = p.y - a.y;
    let len2 = dx * dx + dy * dy;
    let dot = wx * dx + wy * dy;
    assert(wx * wx + wy * wy >= 0) by (nonlinear_arith);
    assert(dist_sq(p, b) >= 0) by (nonlinear_arith);
    if !(len2 == 0 || dot <= 0) && !(dot >= len2) {
        lemma_lagrange(wx, wy, dx, dy);
        assert(len2 > 0) by (nonlinear_arith)
            requires len2 != 0 && len2 == dx * dx + dy * dy;
        lemma_div_pos_is_pos((wx * wx + wy * wy) * len2 - dot * dot, len2);
    }
}

/// Exact floor of the point-to-segment squared distance, over `i128`
/// intermediates.
pub(crate) fn point_seg_dist_sq_exec(p: Point, a: Point, b: Point) -> (r: i64)
    requires
        pt_in_bounds(p, COORD_BOUND as int),
        pt_in_bounds(a, COORD_BOUND as int),
        pt_in_bounds(b, COORD_BOUND as int),
    ensures
        r as int == point_seg_dist_sq(p, a, b),
        r >= 0,
{
    let dx: i128 = b.x as i128 - a.x as i128;
    let dy: i128 = b.y as i128 - a.y as i128;
    let wx: i128 = p.x as i128 - a.x as i128;
    let wy: i128 = p.y as i128 - a.y as i128;
    proof {
        lemma_abs_mul(dx as int, dx as int, 0x4000_0000, 0x4000_0000);
        lemma_abs_mul(dy as int, dy as int, 0x4000_0000, 0x4000_0000);
        lemma_abs_mul(wx as int, wx as int, 0x4000_0000, 0x4000_0000);
        lemma_abs_mul(wy as int, wy as int, 0x4000_0000, 0x4000_0000);
        lemma_abs_mul(wx as int, dx as int, 0x4000_0000, 0x4000_0000);
        lemma_abs_mul(wy as int, dy as int, 0x4000_0000, 0x4000_0000);
    }
    let len2: i128 = dx * dx + dy * dy;
    let dot: i128 = wx * dx + wy * dy;
    let w2: i128 = wx * wx + wy * wy;
    proof {
        lemma_point_seg_dist_sq_nonneg(p, a, b);
    }
    if len2 == 0 || dot <= 0 {
        w2 as i64
    } else if dot >= len2 {
        let ex: i128 = p.x as i128 - b.x as i128;
        let ey: i128 = p.y as i128 - b.y as i128;
        proof {
            lemma_abs_mul(ex as int, ex as int, 0x4000_0000, 0x4000_0000);
            lemma_abs_mul(ey as int, ey as int, 0x4000_0000, 0x4000_0000);
        }
        (ex * ex + ey * ey) as i64
    } else {
        proof {
            lemma_abs_mul(w2 as int, len2 as int, 0x2000_0000_0000_0000,
                0x2000_0000_0000_0000);
            lemma_abs_mul(dot as int, dot as int, 0x2000_0000_0000_0000,
                0x2000_0000_0000_0000);
            lemma_lagrange(wx as int, wy as int, dx as int, dy as int);
        }
        let num: i128 = w2 * len2 - dot * dot;
        let q: u128 = (num as u128) / (len2 as u128);
        proof {
            assert((wx as int) * (wx as int) >= 0) by (nonlinear_arith);
            assert((wy as int) * (wy as int) >= 0) by (nonlinear_arith);
            assert((dot as int) * (dot as int) >= 0) by (nonlinear_arith);
            assert(num as int <= (w2 as int) * (len2 as int));
            lemma_div_is_ordered(num as int, (w2 as int) * (len2 as int), len2 as int);
            lemma_div_by_multiple(w2 as int, len2 as int);
            assert(((w2 as int) * (len2 as int)) / (len2 as int) == w2 as int);
            lemma_div_pos_is_pos(num as int, len2 as int);
        }
        q as i64
    }
}

/// Minimum distance between two line segments: the floor of the square
/// root of the least of the four clamped endpoint projections.
pub open spec fn spec_line_line_dist(a0: Point, a1: Point, b0: Point, b1: Point) -> int {
    sqrt_floor(
        min2(
            min2(point_seg_dist_sq(b0, a0, a1), point_seg_dist_sq(b1, a0, a1)),
            min2(point_seg_dist_sq(a0, b0, b1), point_seg_dist_sq(a1, b0, b1)),
        ),
    )
}

/// Line-line distance does not depend on the order of the two segments.
pub proof fn lemma_line_line_symmetric(a0: Point, a1: Point, b0: Point, b1: Point)
    ensures
        spec_line_line_dist(a0, a1, b0, b1) == spec_line_line_dist(b0, b1, a0, a1),
{
}

pub fn line_line_dist(a0: Point, a1: Point, b0: Point, b1: Point) -> (r: i64)
    requires
        pt_in_bounds(a0, COORD_BOUND as int),
        pt_in_bounds(a1, COORD_BOUND as int),
        pt_in_bounds(b0, COORD_BOUND as int),
        pt_in_bounds(b1, COORD_BOUND as int),
    ensures
        r as int == spec_line_line_dist(a0, a1, b0, b1),
        r >= 0,
{
    let d0 = point_seg_dist_sq_exec(b0, a0, a1);
    let d1 = point_seg_dist_sq_exec(b1, a0, a1);
    let d2 = point_seg_dist_sq_exec(a0, b0, b1);
    let d3 = point_seg_dist_sq_exec(a1, b0, b1);
    let mut m = d0;
    if d1 < m {
        m = d1;
    }
    if d2 < m {
        m = d2;
    }
    if d3 < m {
        m = d3;
    }
    isqrt_i128(m as i128)
}

/// The asymmetric line sampling positions, in hundredths of the
/// parameter range.
pub open spec fn line_ts(i: int) -> int {
    if i == 0 {
        0
    } else if i == 1 {
        20
    } else if i == 2 {
        40
    } else if i == 3 {
        60
    } else if i == 4 {
        80
    } else {
        99
    }
}

/// The line evaluated at parameter `k / 100`, scaled by 100.
pub open spec fn line_sample(p0: Point, p1: Point, k: int) -> (int, int) {
    ((100 - k) * p0.x + k * p1.x, (100 - k) * p0.y + k * p1.y)
}

/// The quadratic evaluated at parameter `j / 10`, scaled by 100.
pub open spec fn quad_sample(p0: Point, ctrl: Point, p1: Point, j: int) -> (int, int) {
    (
        (10 - j) * (10 - j) * p0.x + 2 * j * (10 - j) * ctrl.x + j * j * p1.x,
        (10 - j) * (10 - j) * p0.y + 2 * j * (10 - j) * ctrl.y + j * j * p1.y,
    )
}

pub(crate) fn line_sample_exec(p0: Point, p1: Point, k: i64) -> (s: (i64, i64))
    requires
        pt_in_bounds(p0, COORD_BOUND as int),
        pt_in_bounds(p1, COORD_BOUND as int),
        0 <= k <= 100,
    ensures
        s.0 as int == line_sample(p0, p1, k as int).0,
        s.1 as int == line_sample(p0, p1, k as int).1,
        -0x100_0000_0000 <= s.0 <= 0x100_0000_0000,
        -0x100_0000_0000 <= s.1 <= 0x100_0000_0000,
{
    proof {
        lemma_abs_mul(100 - k, p0.x as int, 100, COORD_BOUND as int);
        lemma_abs_mul(k as int, p1.x as int, 100, COORD_BOUND as int);
        lemma_abs_mul(100 - k, p0.y as int, 100, COORD_BOUND as int);
        lemma_abs_mul(k as int, p1.y as int, 100, COORD_BOUND as int);
    }
    ((100 - k) * p0.x + k * p1.x, (100 - k) * p0.y + k * p1.y)
}

pub(crate) fn quad_sample_exec(p0: Point, ctrl: Point, p1: Point, j: i64) -> (s: (i64, i64))
    requires
        pt_in_bounds(p0, COORD_BOUND as int),
        pt_in_bounds(ctrl, COORD_BOUND as int),
        pt_in_bounds(p1, COORD_BOUND as int),
        0 <= j <= 10,
    ensures
        s.0 as int == quad_sample(p0, ctrl, p1, j as int).0,
        s.1 as int == quad_sample(p0, ctrl, p1, j as int).1,
        -0x100_0000_0000 <= s.0 <= 0x100_0000_0000,
        -0x100_0000_0000 <= s.1 <= 0x100_0000_0000,
{
    let u: i64 = 10 - j;
    proof {
        lemma_abs_mul(u as int, u as int, 10, 10);
        lemma_abs_mul(2 * j, u as int, 20, 10);
        lemma_abs_mul(j as int, j as int, 10, 10);
        lemma_abs_mul(u * u, p0.x as int, 100, COORD_BOUND as int);
        lemma_abs_mul(2 * j * u, ctrl.x as int, 200, COORD_BOUND as int);
        lemma_abs_mul(j * j, p1.x as int, 100, COORD_BOUND as int);
        lemma_abs_mul(u * u, p0.y as int, 100, COORD_BOUND as int);
        lemma_abs_mul(2 * j * u, ctrl.y as int, 200, COORD_BOUND as int);
        lemma_abs_mul(j * j, p1.y as int, 100, COORD_BOUND as int);
    }
    (
        u * u * p0.x + 2 * j * u * ctrl.x + j * j * p1.x,
        u * u * p0.y + 2 * j * u * ctrl.y + j * j * p1.y,
    )
}

/// Squared distance between two sampled points, each with coordinates
/// bounded by `2^40`.
pub(crate) fn pair_dist_sq_exec(a: (i64, i64), b: (i64, i64)) -> (d: i128)
    requires
        -0x100_0000_0000 <= a.0 <= 0x100_0000_0000,
        -0x100_0000_0000 <= a.1 <= 0x100_0000_0000,
        -0x100_0000_0000 <= b.0 <= 0x100_0000_0000,
        -0x100_0000_0000 <= b.1 <= 0x100_0000_0000,
    ensures
        d as int == pair_dist_sq((a.0 as int, a.1 as int), (b.0 as int, b.1 as int)),
        0 <= d <= 0x10_0000_0000_0000_0000_0000,
{
    let dx: i128 = a.0 as i128 - b.0 as i128;
    let dy: i128 = a.1 as i128 - b.1 as i128;
    proof {
        lemma_abs_mul(dx as int, dx as int, 0x200_0000_0000, 0x200_0000_0000);
        lemma_abs_mul(dy as int, dy as int, 0x200_0000_0000, 0x200_0000_0000);
        assert(dx as int * dx as int >= 0) by (nonlinear_arith);
        assert(dy as int * dy as int >= 0) by (nonlinear_arith);
    }
    dx * dx + dy * dy
}

/// The sampled squared distance between line sample `idx / 11` and quad
/// sample `idx % 11`, both scaled by 100.
pub open spec fn line_quad_sample_sq(
    l0: Point,
    l1: Point,
    q0: Point,
    qc: Point,
    q1: Point,
    idx: int,
) -> int {
    pair_dist_sq(line_sample(l0, l1, line_ts(idx / 11)), quad_sample(q0, qc, q1, idx % 11))
}

/// Line-quad distance: the line is sampled at the six asymmetric
/// positions, each sample is matched against the quad's tenths grid, and
/// the floor of the square root of the least squared distance is
/// returned. Asymmetric under argument swap by construction.
pub open spec fn spec_line_quad_dist(l0: Point, l1: Point, q0: Point, qc: Point, q1: Point) -> int {
    sqrt_floor(min_over(|idx: int| line_quad_sample_sq(l0, l1, q0, qc, q1, idx), 66) / 10000)
}

pub fn line_quad_dist(l0: Point, l1: Point, q0: Point, qc: Point, q1: Point) -> (r: i64)
    requires
        pt_in_bounds(l0, COORD_BOUND as int),
        pt_in_bounds(l1, COORD_BOUND as int),
        pt_in_bounds(q0, COORD_BOUND as int),
        pt_in_bounds(qc, COORD_BOUND as int),
        pt_in_bounds(q1, COORD_BOUND as int),
    ensures
        r as int == spec_line_quad_dist(l0, l1, q0, qc, q1),
        r >= 0,
{
    let ghost f = |idx: int| line_quad_sample_sq(l0, l1, q0, qc, q1, idx);
    let first = lq_sample_exec(l0, l1, q0, qc, q1, 0);
    let mut best: i128 = first;
    let mut idx: usize = 1;
    while idx < 66
        invariant
            1 <= idx <= 66,
            best as int == min_over(f, idx as nat),
            0 <= best <= 0x10_0000_0000_0000_0000_0000,
            pt_in_bounds(l0, COORD_BOUND as int),
            pt_in_bounds(l1, COORD_BOUND as int),
            pt_in_bounds(q0, COORD_BOUND as int),
            pt_in_bounds(qc, COORD_BOUND as int),
            pt_in_bounds(q1, COORD_BOUND as int),
            f == (|i: int| line_quad_sample_sq(l0, l1, q0, qc, q1, i)),
        decreases 66 - idx,
    {
        let d = lq_sample_exec(l0, l1, q0, qc, q1, idx);
        proof {
            assert(min_over(f, (idx + 1) as nat) == min2(min_over(f, idx as nat), f(idx as int)));
        }
        if d < best {
            best = d;
        }
        idx += 1;
    }
    let q: u128 = (best as u128) / 10000;
    let r = isqrt_i128(q as i128);
    r
}

/// One sampled line-quad squared distance.
fn lq_sample_exec(l0: Point, l1: Point, q0: Point, qc: Point, q1: Point, idx: usize) -> (d: i128)
    requires
        pt_in_bounds(l0, COORD_BOUND as int),
        pt_in_bounds(l1, COORD_BOUND as int),
        pt_in_bounds(q0, COORD_BOUND as int),
        pt_in_bounds(qc, COORD_BOUND as int),
        pt_in_bounds(q1, COORD_BOUND as int),
        idx < 66,
    ensures
        d as int == line_quad_sample_sq(l0, l1, q0, qc, q1, idx as int),
        0 <= d <= 0x10_0000_0000_0000_0000_0000,
{
    let ki: usize = idx / 11;
    let k: i64 = if ki == 0 {
        0
    } else if ki == 1 {
        20
    } else if ki == 2 {
        40
    } else if ki == 3 {
        60
    } else if ki == 4 {
        80
    } else {
        99
    };
    let j: i64 = (idx % 11) as i64;
    let ls = line_sample_exec(l0, l1, k);
    let qs = quad_sample_exec(q0, qc, q1, j);
    proof {
        assert(k as int == line_ts(idx as int / 11));
        assert(j as int == idx as int % 11);
    }
    pair_dist_sq_exec(ls, qs)
}

/// The sampled squared distance between tenth-grid samples of two quads.
pub open spec fn quad_quad_sample_sq(
    a0: Point,
    ac: Point,
    a1: Point,
    b0: Point,
    bc: Point,
    b1: Point,
    idx: int,
) -> int {
    pair_dist_sq(quad_sample(a0, ac, a1, idx / 11), quad_sample(b0, bc, b1, idx % 11))
}

/// Quad-quad distance: both curves are sampled on the tenths grid and the
/// floor of the square root of the least pairwise squared distance is
/// returned; a coarse fixed-precision estimator.
pub open spec fn spec_quad_quad_dist(
    a0: Point,
    ac: Point,
    a1: Point,
    b0: Point,
    bc: Point,
    b1: Point,
) -> int {
    sqrt_floor(min_over(|idx: int| quad_quad_sample_sq(a0, ac, a1, b0, bc, b1, idx), 121) / 10000)
}

pub fn quad_quad_dist(a0: Point, ac: Point, a1: Point, b0: Point, bc: Point, b1: Point) -> (r: i64)
    requires
        pt_in_bounds(a0, COORD_BOUND as int),
        pt_in_bounds(ac, COORD_BOUND as int),
        pt_in_bounds(a1, COORD_BOUND as int),
        pt_in_bounds(b0, COORD_BOUND as int),
        pt_in_bounds(bc, COORD_BOUND as int),
        pt_in_bounds(b1, COORD_BOUND as int),
    ensures
        r as int == spec_quad_quad_dist(a0, ac, a1, b0, bc, b1),
        r >= 0,
{
    let ghost f = |idx: int| quad_quad_sample_sq(a0, ac, a1, b0, bc, b1, idx);
    let first = qq_sample_exec(a0, ac, a1, b0, bc, b1, 0);
    let mut best: i128 = first;
    let mut idx: usize = 1;
    while idx < 121
        invariant
            1 <= idx <= 121,
            best as int == min_over(f, idx as nat),
            0 <= best <= 0x10_0000_0000_0000_0000_0000,
            pt_in_bounds(a0, COORD_BOUND as int),
            pt_in_bounds(ac, COORD_BOUND as int),
            pt_in_bounds(a1, COORD_BOUND as int),
            pt_in_bounds(b0, COORD_BOUND as int),
            pt_in_bounds(bc, COORD_BOUND as int),
            pt_in_bounds(b1, COORD_BOUND as int),
            f == (|i: int| quad_quad_sample_sq(a0, ac, a1, b0, bc, b1, i)),
        decreases 121 - idx,
    {
        let d = qq_sample_exec(a0, ac, a1, b0, bc, b1, idx);
        proof {
            assert(min_over(f, (idx + 1) as nat) == min2(min_over(f, idx as nat), f(idx as int)));
        }
        if d < best {
            best = d;
        }
        idx += 1;
    }
    let q: u128 = (best as u128) / 10000;
    let r = isqrt_i128(q as i128);
    r
}

/// One sampled quad-quad squared distance.
fn qq_sample_exec(
    a0: Point,
    ac: Point,
    a1: Point,
    b0: Point,
    bc: Point,
    b1: Point,
    idx: usize,
) -> (d: i128)
    requires
        pt_in_bounds(a0, COORD_BOUND as int),
        pt_in_bounds(ac, COORD_BOUND as int),
        pt_in_bounds(a1, COORD_BOUND as int),
        pt_in_bounds(b0, COORD_BOUND as int),
        pt_in_bounds(bc, COORD_BOUND as int),
        pt_in_bounds(b1, COORD_BOUND as int),
        idx < 121,
    ensures
        d as int == quad_quad_sample_sq(a0, ac, a1, b0, bc, b1, idx as int),
        0 <= d <= 0x10_0000_0000_0000_0000_0000,
{
    let i: i64 = (idx / 11) as i64;
    let j: i64 = (idx % 11) as i64;
    proof {
        lemma_div_pos_is_pos(idx as int, 11);
        lemma_div_is_ordered(idx as int, 120, 11);
    }
    let sa = quad_sample_exec(a0, ac, a1, i);
    let sb = quad_sample_exec(b0, bc, b1, j);
    pair_dist_sq_exec(sa, sb)
}

/// Transposing a sampled quad-quad pair swaps the two curves.
proof fn lemma_qq_transpose(
    a0: Point,
    ac: Point,
    a1: Point,
    b0: Point,
    bc: Point,
    b1: Point,
    idx: int,
)
    requires
        0 <= idx < 121,
    ensures
        0 <= (idx % 11) * 11 + idx / 11 < 121,
        quad_quad_sample_sq(a0, ac, a1, b0, bc, b1, idx) == quad_quad_sample_sq(
            b0,
            bc,
            b1,
            a0,
            ac,
            a1,
            (idx % 11) * 11 + idx / 11,
        ),
{
    let a = idx / 11;
    let b = idx % 11;
    lemma_fundamental_div_mod(idx, 11);
    lemma_mod_division_less_than_divisor(idx, 11);
    lemma_div_pos_is_pos(idx, 11);
    lemma_div_is_ordered(idx, 120, 11);
    lemma_fundamental_div_mod_converse(b * 11 + a, 11, b, a);
    lemma_pair_dist_sq_nonneg(quad_sample(a0, ac, a1, a), quad_sample(b0, bc, b1, b));
}

/// Quad-quad distance is symmetric under argument swap: the sampled pair
/// set is the same either way.
pub proof fn lemma_quad_quad_symmetric(
    a0: Point,
    ac: Point,
    a1: Point,
    b0: Point,
    bc: Point,
    b1: Point,
)
    ensures
        spec_quad_quad_dist(a0, ac, a1, b0, bc, b1) == spec_quad_quad_dist(b0, bc, b1, a0, ac, a1),
{
    let f = |idx: int| quad_quad_sample_sq(a0, ac, a1, b0, bc, b1, idx);
    let g = |idx: int| quad_quad_sample_sq(b0, bc, b1, a0, ac, a1, idx);
    let m1 = min_over(f, 121);
    let m2 = min_over(g, 121);
    lemma_min_over_attained(f, 121);
    lemma_min_over_attained(g, 121);
    let i1 = choose|i: int| 0 <= i < 121 && m1 == #[trigger] f(i);
    let i2 = choose|i: int| 0 <= i < 121 && m2 == #[trigger] g(i);
    lemma_qq_transpose(a0, ac, a1, b0, bc, b1, i1);
    lemma_min_over_le(g, 121, (i1 % 11) * 11 + i1 / 11);
    assert(m2 <= m1);
    lemma_qq_transpose(b0, bc, b1, a0, ac, a1, i2);
    lemma_min_over_le(f, 121, (i2 % 11) * 11 + i2 / 11);
    assert(m1 <= m2);
}

/// Minimum distance between two segments, dispatched by type pair.
/// A quad-line pair is normalized to line-quad order before dispatch.
pub open spec fn spec_seg_distance(s1: Segment, s2: Segment) -> int {
    match (s1, s2) {
        (Segment::Line { p0: a0, p1: a1 }, Segment::Line { p0: b0, p1: b1 }) => spec_line_line_dist(
            a0,
            a1,
            b0,
            b1,
        ),
        (Segment::Line { p0: a0, p1: a1 }, Segment::Quad { p0, ctrl, p1 }) => spec_line_quad_dist(
            a0,
            a1,
            p0,
            ctrl,
            p1,
        ),
        (Segment::Quad { p0, ctrl, p1 }, Segment::Line { p0: b0, p1: b1 }) => spec_line_quad_dist(
            b0,
            b1,
            p0,
            ctrl,
            p1,
        ),
        (
            Segment::Quad { p0: a0, ctrl: ac, p1: a1 },
            Segment::Quad { p0: b0, ctrl: bc, p1: b1 },
        ) => spec_quad_quad_dist(a0, ac, a1, b0, bc, b1),
    }
}

/// The oracle's distance does not depend on the order of its two
/// segments: line-line and quad-quad estimates are symmetric outright,
/// and a mixed pair is normalized to line-quad order before dispatch.
pub proof fn lemma_seg_distance_symmetric(s1: Segment, s2: Segment)
    ensures
        spec_seg_distance(s1, s2) == spec_seg_distance(s2, s1),
{
    match (s1, s2) {
        (Segment::Line { p0: a0, p1: a1 }, Segment::Line { p0: b0, p1: b1 }) => {
            lemma_line_line_symmetric(a0, a1, b0, b1);
        },
        (
            Segment::Quad { p0: a0, ctrl: ac, p1: a1 },
            Segment::Quad { p0: b0, ctrl: bc, p1: b1 },
        ) => {
            lemma_quad_quad_symmetric(a0, ac, a1, b0, bc, b1);
        },
        _ => {},
    }
}

pub proof fn lemma_seg_distance_nonneg(s1: Segment, s2: Segment)
    ensures
        spec_seg_distance(s1, s2) >= 0,
{
    lemma_sqrt_floor_nonneg_all();
}

/// `sqrt_floor` is nonnegative on every input.
pub proof fn lemma_sqrt_floor_nonneg_all()
    ensures
        forall|n: int| sqrt_floor(n) >= 0,
{
    assert forall|n: int| sqrt_floor(n) >= 0 by {
        if n >= 0 {
            lemma_sqrt_floor_bounds(n);
        } else {
            assert(sqrt_floor(n) == 0);
        }
    }
}

/// The segment distance oracle.
pub fn segment_distance(s1: &Segment, s2: &Segment) -> (r: i64)
    requires
        seg_in_bounds(*s1, COORD_BOUND as int),
        seg_in_bounds(*s2, COORD_BOUND as int),
    ensures
        r as int == spec_seg_distance(*s1, *s2),
        r >= 0,
{
    match (s1, s2) {
        (Segment::Line { p0: a0, p1: a1 }, Segment::Line { p0: b0, p1: b1 }) => line_line_dist(
            *a0,
            *a1,
            *b0,
            *b1,
        ),
        (Segment::Line { p0: a0, p1: a1 }, Segment::Quad { p0, ctrl, p1 }) => line_quad_dist(
            *a0,
            *a1,
            *p0,
            *ctrl,
            *p1,
        ),
        (Segment::Quad { p0, ctrl, p1 }, Segment::Line { p0: b0, p1: b1 }) => line_quad_dist(
            *b0,
            *b1,
            *p0,
            *ctrl,
            *p1,
        ),
        (
            Segment::Quad { p0: a0, ctrl: ac, p1: a1 },
            Segment::Quad { p0: b0, ctrl: bc, p1: b1 },
        ) => quad_quad_dist(*a0, *ac, *a1, *b0, *bc, *b1),
    }
}

} // verus!
