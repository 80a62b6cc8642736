//! Iterative kerning solver: a bounded fixed-point-seeking loop that
//! translates one glyph's contours horizontally until the aggregate
//! distance to the other glyph reaches a target, subject to a hard
//! overlap floor of `-1000 * scale_factor`.

use vstd::prelude::*;
use crate::geometry::{
    Segment, paths_in_bounds, paths_view, translate_paths, translate_paths_exec, COORD_BOUND,
};
use crate::pathdist::{spec_path_distance, path_distance};

verus! {

/// Coordinate bound accepted for the solver's inputs; translated working
/// copies then stay within `COORD_BOUND`.
pub const KERN_COORD_BOUND: i64 = 0x10_0000;

/// One run of the solver's loop, from the given accumulated kern,
/// last measured distance and iteration count. The loop exits with the
/// accumulated kern once the measured distance is within 10 units of the
/// target or ten iterations have run; it exits with the floor `mp` as
/// soon as there is nothing to measure or the accumulated kern falls
/// below `mp`.
pub open spec fn spec_kern_loop(
    left: Seq<Seq<Segment>>,
    right: Seq<Seq<Segment>>,
    target: int,
    mp: int,
    kern: int,
    min_dist: int,
    iters: nat,
) -> int
    decreases 10 - iters,
{
    if iters >= 10 || (-10 <= target - min_dist && target - min_dist <= 10) {
        kern
    } else {
        match spec_path_distance(left, translate_paths(right, kern, 0)) {
            Option::None => mp,
            Option::Some(md) => {
                let k2 = kern + target - md;
                if k2 < mp {
                    mp
                } else {
                    spec_kern_loop(left, right, target, mp, k2, md, (iters + 1) as nat)
                }
            },
        }
    }
}

/// The solver's result: the loop started from kern 0, a sentinel
/// measured distance far below any legitimate target, and iteration 0,
/// with floor `-1000 * scale`.
pub open spec fn spec_determine_kern(
    left: Seq<Seq<Segment>>,
    right: Seq<Seq<Segment>>,
    target: int,
    scale: int,
) -> int {
    spec_kern_loop(left, right, target, -1000 * scale, 0, -9999, 0)
}

/// With no contours to measure on either side, the solver returns the
/// floor exactly.
pub proof fn lemma_kern_no_contours(
    left: Seq<Seq<Segment>>,
    right: Seq<Seq<Segment>>,
    target: int,
    scale: int,
)
    requires
        target >= 0,
        left.len() == 0 || right.len() == 0,
    ensures
        spec_determine_kern(left, right, target, scale) == -1000 * scale,
{
    assert(translate_paths(right, 0, 0).len() == right.len());
}

/// If the very first measurement already demands a kern below the floor
/// (the target implies overlap beyond the permitted minimum), the solver
/// short-circuits and returns the floor exactly.
pub proof fn lemma_kern_clamps_to_floor(
    left: Seq<Seq<Segment>>,
    right: Seq<Seq<Segment>>,
    target: int,
    scale: int,
    md: int,
)
    requires
        target >= 0,
        spec_path_distance(left, translate_paths(right, 0, 0)) == Option::Some(md),
        target - md < -1000 * scale,
    ensures
        spec_determine_kern(left, right, target, scale) == -1000 * scale,
{
}

/// The iterative kerning solver. `max_tuck` is accepted for a planned
/// sidebearing-aware floor refinement that is deliberately inactive; the
/// floor is always `-1000 * scale_factor`. The caller's contour data is
/// never altered: each iteration works on a fresh translated copy.
#[allow(unused_variables)]
pub fn determine_kern(
    left_paths: &Vec<Vec<Segment>>,
    right_paths: &Vec<Vec<Segment>>,
    target_distance: i64,
    max_tuck: i64,
    scale_factor: i64,
) -> (r: i64)
    requires
        paths_in_bounds(paths_view(left_paths@), COORD_BOUND as int),
        paths_in_bounds(paths_view(right_paths@), KERN_COORD_BOUND as int),
        left_paths@.len() * right_paths@.len() <= usize::MAX,
        forall|i: int, j: int|
            0 <= i < left_paths@.len() && 0 <= j < right_paths@.len() ==> (
            #[trigger] left_paths@[i])@.len() * (#[trigger] right_paths@[j])@.len() <= usize::MAX,
        0 <= target_distance <= KERN_COORD_BOUND,
        0 <= scale_factor <= 1000,
    ensures
        r as int == spec_determine_kern(
            paths_view(left_paths@),
            paths_view(right_paths@),
            target_distance as int,
            scale_factor as int,
        ),
        -1000 * scale_factor <= r,
{
    let ghost pl = paths_view(left_paths@);
    let ghost pr = paths_view(right_paths@);
    let mp: i64 = -1000 * scale_factor;
    let mut iterations: usize = 0;
    let mut kern: i64 = 0;
    let mut min_distance: i64 = -9999;
    loop
        invariant
            iterations <= 10,
            mp == -1000 * scale_factor,
            0 <= scale_factor <= 1000,
            0 <= target_distance <= KERN_COORD_BOUND,
            mp <= kern <= (iterations as int) * target_distance,
            pl == paths_view(left_paths@),
            pr == paths_view(right_paths@),
            paths_in_bounds(pl, COORD_BOUND as int),
            paths_in_bounds(pr, KERN_COORD_BOUND as int),
            left_paths@.len() * right_paths@.len() <= usize::MAX,
            forall|i: int, j: int|
                0 <= i < left_paths@.len() && 0 <= j < right_paths@.len() ==> (
                #[trigger] left_paths@[i])@.len() * (#[trigger] right_paths@[j])@.len()
                    <= usize::MAX,
            spec_kern_loop(
                pl,
                pr,
                target_distance as int,
                mp as int,
                kern as int,
                min_distance as int,
                iterations as nat,
            ) == spec_determine_kern(pl, pr, target_distance as int, scale_factor as int),
        decreases 10 - iterations,
    {
        let diff: i128 = target_distance as i128 - min_distance as i128;
        if !(iterations < 10 && (diff > 10 || diff < -10)) {
            return kern;
        }
        proof {
            assert((iterations as int) * (target_distance as int) <= 10 * (
            target_distance as int)) by (nonlinear_arith)
                requires iterations as int <= 10 && target_distance as int >= 0;
        }
        let translated = translate_paths_exec(right_paths, kern, 0, Ghost(
            KERN_COORD_BOUND as int,
        ));
        proof {
            assert(paths_view(translated@) == translate_paths(pr, kern as int, 0));
        }
        match path_distance(left_paths, &translated) {
            None => {
                return mp;
            },
            Some(md) => {
                let k2_128: i128 = kern as i128 + target_distance as i128 - md as i128;
                if k2_128 < mp as i128 {
                    return mp;
                }
                proof {
                    assert(((iterations as int) + 1) * (target_distance as int) == (
                    iterations as int) * (target_distance as int) + target_distance as int)
                        by (nonlinear_arith);
                }
                let k2: i64 = k2_128 as i64;
                kern = k2;
                min_distance = md;
                iterations += 1;
            },
        }
    }
}

} // verus!
