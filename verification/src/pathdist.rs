//! Path-pair minimizer and multi-path distance aggregator.
//!
//! The minimizer scans every segment pair of two contours, scores each
//! pair by three coarse sample points, keeps the first-seen best pair,
//! and refines exactly that pair with the segment distance oracle. The
//! aggregator returns the least refined distance over all contour pairs
//! of two glyphs, or no result when either side has no contours.

use vstd::prelude::*;
use crate::geometry::{
    Point, Segment, pair_dist_sq, pt_in_bounds, seg_in_bounds, path_in_bounds, paths_in_bounds,
    paths_view, min2, min_over, lemma_min_over_le, lemma_min_over_attained, COORD_BOUND,
};
use crate::oracle::{
    spec_seg_distance, segment_distance, lemma_seg_distance_nonneg, pair_dist_sq_exec,
    lemma_abs_mul,
};
use vstd::arithmetic::div_mod::{
    lemma_div_pos_is_pos, lemma_mod_division_less_than_divisor, lemma_multiply_divide_lt,
    lemma_fundamental_div_mod_converse,
};

verus! {

/// The three coarse sample points of a segment, at parameters 0, 1/2
/// and 1, scaled by 4.
pub open spec fn seg_sample(s: Segment, t: int) -> (int, int) {
    match s {
        Segment::Line { p0, p1 } => if t == 0 {
            (4 * p0.x, 4 * p0.y)
        } else if t == 1 {
            (2 * (p0.x + p1.x), 2 * (p0.y + p1.y))
        } else {
            (4 * p1.x, 4 * p1.y)
        },
        Segment::Quad { p0, ctrl, p1 } => if t == 0 {
            (4 * p0.x, 4 * p0.y)
        } else if t == 1 {
            (p0.x + 2 * ctrl.x + p1.x, p0.y + 2 * ctrl.y + p1.y)
        } else {
            (4 * p1.x, 4 * p1.y)
        },
    }
}

/// Coarse score of a segment pair: the least squared distance between
/// same-parameter sample points (scaled by 16).
pub open spec fn spec_sample_sq(s1: Segment, s2: Segment) -> int {
    min2(
        min2(
            pair_dist_sq(seg_sample(s1, 0), seg_sample(s2, 0)),
            pair_dist_sq(seg_sample(s1, 1), seg_sample(s2, 1)),
        ),
        pair_dist_sq(seg_sample(s1, 2), seg_sample(s2, 2)),
    )
}

fn seg_sample_exec(s: &Segment, t: usize) -> (r: (i64, i64))
    requires
        seg_in_bounds(*s, COORD_BOUND as int),
        t < 3,
    ensures
        r.0 as int == seg_sample(*s, t as int).0,
        r.1 as int == seg_sample(*s, t as int).1,
        -0x100_0000_0000 <= r.0 <= 0x100_0000_0000,
        -0x100_0000_0000 <= r.1 <= 0x100_0000_0000,
{
    match s {
        Segment::Line { p0, p1 } => {
            if t == 0 {
                (4 * p0.x, 4 * p0.y)
            } else if t == 1 {
                (2 * (p0.x + p1.x), 2 * (p0.y + p1.y))
            } else {
                (4 * p1.x, 4 * p1.y)
            }
        },
        Segment::Quad { p0, ctrl, p1 } => {
            if t == 0 {
                (4 * p0.x, 4 * p0.y)
            } else if t == 1 {
                (p0.x + 2 * ctrl.x + p1.x, p0.y + 2 * ctrl.y + p1.y)
            } else {
                (4 * p1.x, 4 * p1.y)
            }
        },
    }
}

pub(crate) fn sample_sq_exec(s1: &Segment, s2: &Segment) -> (d: i128)
    requires
        seg_in_bounds(*s1, COORD_BOUND as int),
        seg_in_bounds(*s2, COORD_BOUND as int),
    ensures
        d as int == spec_sample_sq(*s1, *s2),
        0 <= d <= 0x10_0000_0000_0000_0000_0000,
{
    let a0 = seg_sample_exec(s1, 0);
    let a1 = seg_sample_exec(s1, 1);
    let a2 = seg_sample_exec(s1, 2);
    let b0 = seg_sample_exec(s2, 0);
    let b1 = seg_sample_exec(s2, 1);
    let b2 = seg_sample_exec(s2, 2);
    let d0 = pair_dist_sq_exec(a0, b0);
    let d1 = pair_dist_sq_exec(a1, b1);
    let d2 = pair_dist_sq_exec(a2, b2);
    let mut m = d0;
    if d1 < m {
        m = d1;
    }
    if d2 < m {
        m = d2;
    }
    m
}

/// Coarse score of the flattened segment pair `idx` (row-major over the
/// second contour's length).
pub open spec fn pair_sq_at(a: Seq<Segment>, b: Seq<Segment>, idx: int) -> int {
    spec_sample_sq(a[idx / b.len() as int], b[idx % b.len() as int])
}

/// Index of the best-scored segment pair among the first `n` pairs in
/// scan order; ties keep the first-seen pair.
pub open spec fn best_pair_idx(a: Seq<Segment>, b: Seq<Segment>, n: nat) -> int
    decreases n,
{
    if n <= 1 {
        0
    } else {
        let p = best_pair_idx(a, b, (n - 1) as nat);
        if pair_sq_at(a, b, n - 1) < pair_sq_at(a, b, p) {
            n - 1
        } else {
            p
        }
    }
}

/// The refined minimum distance between two contours: the oracle applied
/// to the best-scored segment pair, or `i64::MAX` when either contour is
/// empty.
pub open spec fn spec_min_distance_path(a: Seq<Segment>, b: Seq<Segment>) -> int {
    if a.len() == 0 || b.len() == 0 {
        i64::MAX as int
    } else {
        let p = best_pair_idx(a, b, (a.len() * b.len()) as nat);
        spec_seg_distance(a[p / b.len() as int], b[p % b.len() as int])
    }
}

pub proof fn lemma_min_distance_path_nonneg(a: Seq<Segment>, b: Seq<Segment>)
    ensures
        spec_min_distance_path(a, b) >= 0,
{
    if a.len() != 0 && b.len() != 0 {
        let p = best_pair_idx(a, b, (a.len() * b.len()) as nat);
        lemma_seg_distance_nonneg(a[p / b.len() as int], b[p % b.len() as int]);
    }
}

/// Closest-pair distance between two contours: coarse three-point
/// sampling picks a candidate pair, then the oracle refines exactly that
/// pair.
pub fn min_distance_path(a: &Vec<Segment>, b: &Vec<Segment>) -> (r: i64)
    requires
        path_in_bounds(a@, COORD_BOUND as int),
        path_in_bounds(b@, COORD_BOUND as int),
        a@.len() * b@.len() <= usize::MAX,
    ensures
        r as int == spec_min_distance_path(a@, b@),
        r >= 0,
{
    if a.len() == 0 || b.len() == 0 {
        return i64::MAX;
    }
    let m: usize = b.len();
    let n: usize = a.len() * m;
    let mut best_idx: usize = 0;
    let mut bd: i128 = sample_sq_exec(&a[0], &b[0]);
    proof {
        lemma_fundamental_div_mod_converse(0, m as int, 0, 0);
        assert(bd as int == pair_sq_at(a@, b@, 0));
        assert(n >= 1) by (nonlinear_arith)
            requires n == a@.len() * b@.len() && a@.len() >= 1 && b@.len() >= 1;
    }
    let mut idx: usize = 1;
    while idx < n
        invariant
            1 <= idx <= n,
            n == a@.len() * b@.len(),
            m == b@.len(),
            0 < m,
            0 < a@.len(),
            best_idx < idx,
            best_idx as int == best_pair_idx(a@, b@, idx as nat),
            bd as int == pair_sq_at(a@, b@, best_idx as int),
            path_in_bounds(a@, COORD_BOUND as int),
            path_in_bounds(b@, COORD_BOUND as int),
        decreases n - idx,
    {
        let i: usize = idx / m;
        let j: usize = idx % m;
        proof {
            lemma_div_pos_is_pos(idx as int, m as int);
            lemma_mod_division_less_than_divisor(idx as int, m as int);
            assert(idx < m as int * a@.len()) by (nonlinear_arith)
                requires idx < n && n == a@.len() * m as int;
            lemma_multiply_divide_lt(idx as int, m as int, a@.len() as int);
        }
        let d = sample_sq_exec(&a[i], &b[j]);
        proof {
            assert(d as int == pair_sq_at(a@, b@, idx as int));
            assert(best_pair_idx(a@, b@, (idx + 1) as nat) == if pair_sq_at(a@, b@, idx as int)
                < pair_sq_at(a@, b@, best_pair_idx(a@, b@, idx as nat)) {
                idx as int
            } else {
                best_pair_idx(a@, b@, idx as nat)
            });
        }
        if d < bd {
            bd = d;
            best_idx = idx;
        }
        idx += 1;
    }
    let bi: usize = best_idx / m;
    let bj: usize = best_idx % m;
    proof {
        lemma_div_pos_is_pos(best_idx as int, m as int);
        lemma_mod_division_less_than_divisor(best_idx as int, m as int);
        assert(best_idx < m as int * a@.len()) by (nonlinear_arith)
            requires best_idx < n && n == a@.len() * m as int;
        lemma_multiply_divide_lt(best_idx as int, m as int, a@.len() as int);
    }
    segment_distance(&a[bi], &b[bj])
}

/// The minimizer's distance for the flattened contour pair `idx`.
pub open spec fn agg_at(ls: Seq<Seq<Segment>>, rs: Seq<Seq<Segment>>, idx: int) -> int {
    spec_min_distance_path(ls[idx / rs.len() as int], rs[idx % rs.len() as int])
}

/// Minimum distance over all contour pairs, or no result when either
/// side has no contours.
pub open spec fn spec_path_distance(ls: Seq<Seq<Segment>>, rs: Seq<Seq<Segment>>) -> Option<int> {
    if ls.len() == 0 || rs.len() == 0 {
        Option::None
    } else {
        Option::Some(min_over(|idx: int| agg_at(ls, rs, idx), (ls.len() * rs.len()) as nat))
    }
}

/// A measured aggregate distance is never negative.
pub proof fn lemma_path_distance_nonneg(ls: Seq<Seq<Segment>>, rs: Seq<Seq<Segment>>)
    ensures
        spec_path_distance(ls, rs) matches Option::Some(d) ==> d >= 0,
{
    if ls.len() != 0 && rs.len() != 0 {
        let f = |idx: int| agg_at(ls, rs, idx);
        let n = (ls.len() * rs.len()) as nat;
        assert(n >= 1) by (nonlinear_arith)
            requires n == ls.len() * rs.len() && ls.len() >= 1 && rs.len() >= 1;
        lemma_min_over_attained(f, n);
        let i = choose|i: int| 0 <= i < n && min_over(f, n) == #[trigger] f(i);
        lemma_min_distance_path_nonneg(ls[i / rs.len() as int], rs[i % rs.len() as int]);
    }
}

/// A measured aggregate distance is the true minimum over all contour
/// pairs: it is a lower bound for every pair and attained by some pair,
/// never an approximation restricted to a subset.
pub proof fn lemma_path_distance_is_true_minimum(
    ls: Seq<Seq<Segment>>,
    rs: Seq<Seq<Segment>>,
    d: int,
)
    requires
        spec_path_distance(ls, rs) == Option::Some(d),
    ensures
        forall|i: int, j: int|
            0 <= i < ls.len() && 0 <= j < rs.len() ==> d <= spec_min_distance_path(
                #[trigger] ls[i],
                #[trigger] rs[j],
            ),
        exists|i: int, j: int|
            0 <= i < ls.len() && 0 <= j < rs.len() && d == spec_min_distance_path(
                #[trigger] ls[i],
                #[trigger] rs[j],
            ),
{
    let m = rs.len() as int;
    let f = |idx: int| agg_at(ls, rs, idx);
    let n = (ls.len() * rs.len()) as nat;
    assert(d == min_over(f, n));
    assert forall|i: int, j: int| 0 <= i < ls.len() && 0 <= j < rs.len() implies d
        <= spec_min_distance_path(#[trigger] ls[i], #[trigger] rs[j]) by {
        lemma_fundamental_div_mod_converse(i * m + j, m, i, j);
        assert(0 <= i * m + j < n) by (nonlinear_arith)
            requires
                0 <= i < ls.len() && 0 <= j < m && m == rs.len() && n == ls.len() * rs.len();
        lemma_min_over_le(f, n, i * m + j);
        assert(f(i * m + j) == spec_min_distance_path(ls[i], rs[j]));
    }
    assert(n >= 1) by (nonlinear_arith)
        requires n == ls.len() * rs.len() && ls.len() >= 1 && rs.len() >= 1;
    lemma_min_over_attained(f, n);
    let idx = choose|i: int| 0 <= i < n && min_over(f, n) == #[trigger] f(i);
    lemma_div_pos_is_pos(idx, m);
    lemma_mod_division_less_than_divisor(idx, m);
    assert(idx < m * ls.len()) by (nonlinear_arith)
        requires idx < n && n == ls.len() * m;
    lemma_multiply_divide_lt(idx, m, ls.len() as int);
    assert(d == spec_min_distance_path(ls[idx / m], rs[idx % m]));
}

/// Aggregate distance between two contour collections. Returns no result
/// exactly when either collection is empty; otherwise the least
/// minimizer distance over every contour pair.
pub fn path_distance(left_paths: &Vec<Vec<Segment>>, right_paths: &Vec<Vec<Segment>>) -> (r: Option<
    i64,
>)
    requires
        paths_in_bounds(paths_view(left_paths@), COORD_BOUND as int),
        paths_in_bounds(paths_view(right_paths@), COORD_BOUND as int),
        left_paths@.len() * right_paths@.len() <= usize::MAX,
        forall|i: int, j: int|
            0 <= i < left_paths@.len() && 0 <= j < right_paths@.len() ==> (
            #[trigger] left_paths@[i])@.len() * (#[trigger] right_paths@[j])@.len() <= usize::MAX,
    ensures
        r is None <==> (left_paths@.len() == 0 || right_paths@.len() == 0),
        r matches Some(d) ==> Option::Some(d as int) == spec_path_distance(
            paths_view(left_paths@),
            paths_view(right_paths@),
        ) && d >= 0,
{
    let ghost ls = paths_view(left_paths@);
    let ghost rs = paths_view(right_paths@);
    if left_paths.len() == 0 || right_paths.len() == 0 {
        return None;
    }
    let ghost f = |idx: int| agg_at(ls, rs, idx);
    let m: usize = right_paths.len();
    let n: usize = left_paths.len() * m;
    proof {
        lemma_fundamental_div_mod_converse(0, m as int, 0, 0);
        assert(n >= 1) by (nonlinear_arith)
            requires n == left_paths@.len() * right_paths@.len() && left_paths@.len() >= 1
                && right_paths@.len() >= 1;
        assert(ls[0] == left_paths@[0]@);
        assert(rs[0] == right_paths@[0]@);
        assert(path_in_bounds(ls[0], COORD_BOUND as int));
        assert(path_in_bounds(rs[0], COORD_BOUND as int));
    }
    let mut cur: i64 = min_distance_path(&left_paths[0], &right_paths[0]);
    let mut idx: usize = 1;
    while idx < n
        invariant
            1 <= idx <= n,
            n == ls.len() * rs.len(),
            m == rs.len(),
            0 < m,
            0 < ls.len(),
            ls == paths_view(left_paths@),
            rs == paths_view(right_paths@),
            f == (|i: int| agg_at(ls, rs, i)),
            cur as int == min_over(f, idx as nat),
            cur >= 0,
            paths_in_bounds(ls, COORD_BOUND as int),
            paths_in_bounds(rs, COORD_BOUND as int),
            forall|i: int, j: int|
                0 <= i < ls.len() && 0 <= j < rs.len() ==> (#[trigger] left_paths@[i])@.len() * (
                #[trigger] right_paths@[j])@.len() <= usize::MAX,
        decreases n - idx,
    {
        let i: usize = idx / m;
        let j: usize = idx % m;
        proof {
            lemma_div_pos_is_pos(idx as int, m as int);
            lemma_mod_division_less_than_divisor(idx as int, m as int);
            assert(idx < m as int * ls.len()) by (nonlinear_arith)
                requires idx < n && n == ls.len() * m as int;
            lemma_multiply_divide_lt(idx as int, m as int, ls.len() as int);
            assert(ls[i as int] == left_paths@[i as int]@);
            assert(rs[j as int] == right_paths@[j as int]@);
            assert(path_in_bounds(ls[i as int], COORD_BOUND as int));
            assert(path_in_bounds(rs[j as int], COORD_BOUND as int));
        }
        let d = min_distance_path(&left_paths[i], &right_paths[j]);
        proof {
            assert(d as int == f(idx as int));
            assert(min_over(f, (idx + 1) as nat) == if min_over(f, idx as nat) <= f(idx as int) {
                min_over(f, idx as nat)
            } else {
                f(idx as int)
            });
        }
        if d < cur {
            cur = d;
        }
        idx += 1;
    }
    Some(cur)
}

} // verus!
