//! The glyph representation consumed by the spacing and collision core:
//! contours in design units, advance and offset values used to position
//! them absolutely, and role flags injected by the font-data layer.

use vstd::prelude::*;
use crate::geometry::{
    Segment, paths_in_bounds, paths_view, translate_paths, translate_paths_exec, COORD_BOUND,
};
use crate::collision::{Rect, rects_overlap, spec_intersects, intersects};

verus! {

/// Coordinate and offset bound accepted by the positioning routines;
/// positioned contours then stay within `COORD_BOUND`.
pub const GLYPH_COORD_BOUND: i64 = 0x1000_0000;

/// Design-space bounding metrics of a glyph, as provided by the font.
#[derive(Clone, Copy, PartialEq, Eq, Structural, Debug)]
pub struct GlyphExtents {
    pub x_bearing: i32,
    pub y_bearing: i32,
    pub width: i32,
    pub height: i32,
}

/// Role flags for a glyph. They are injected by the font-data layer
/// (derived there from font tables or naming conventions); the geometry
/// core treats them as opaque predicates and never computes them itself.
#[derive(Clone, Copy, PartialEq, Eq, Structural, Debug, Default)]
pub struct GlyphClasses {
    pub dot_below: bool,
    pub dot_above: bool,
    pub bari_ye: bool,
    pub init: bool,
    pub isol: bool,
    pub fina: bool,
    pub space: bool,
}

/// The standard glyph representation with the extra fields the spacing
/// core needs.
#[derive(Debug)]
pub struct GulzarGlyph {
    pub codepoint: u32,
    pub name: String,
    pub paths: Vec<Vec<Segment>>,
    pub classes: GlyphClasses,
    pub cluster: u32,
    pub x_advance: i32,
    pub x_total_advance: i32,
    pub y_advance: i32,
    pub x_offset: i32,
    pub y_offset: i32,
    pub in_bari_ye: bool,
}

/// Whether contour `i` of one positioned glyph crosses contour `j` of
/// another, after flattening at tolerance `tol`.
pub open spec fn contours_collide_at(
    a: Seq<Seq<Segment>>,
    b: Seq<Seq<Segment>>,
    tol: int,
    i: int,
    j: int,
) -> bool {
    spec_intersects(a[i], b[j], tol)
}

/// Some pair of positioned contours crosses.
pub open spec fn spec_any_contour_collision(
    a: Seq<Seq<Segment>>,
    b: Seq<Seq<Segment>>,
    tol: int,
) -> bool {
    exists|i: int, j: int|
        0 <= i < a.len() && 0 <= j < b.len() && #[trigger] contours_collide_at(a, b, tol, i, j)
}

impl GulzarGlyph {
    /// Every design-space contour coordinate lies within `b`.
    pub open spec fn geometry_in_bounds(&self, b: int) -> bool {
        paths_in_bounds(paths_view(self.paths@), b)
    }

    /// Horizontal positioning shift: running total advance plus offset.
    pub open spec fn spec_dx(&self) -> int {
        self.x_total_advance + self.x_offset
    }

    /// Vertical positioning shift.
    pub open spec fn spec_dy(&self) -> int {
        self.y_offset as int
    }

    /// The glyph's contours positioned absolutely.
    pub open spec fn spec_positioned(&self) -> Seq<Seq<Segment>> {
        translate_paths(paths_view(self.paths@), self.spec_dx(), self.spec_dy())
    }

    /// Bounding box of the positioned glyph, from font extents combined
    /// with the running total advance and the offsets.
    pub open spec fn spec_bounding_box(&self, e: GlyphExtents) -> Rect {
        let bl_x = e.x_bearing + self.x_total_advance + self.x_offset;
        let bl_y = e.y_bearing + e.height + self.y_offset;
        let tr_x = bl_x + e.width;
        let tr_y = bl_y - e.height;
        Rect {
            x0: vstd::math::min(bl_x, tr_x) as i64,
            y0: vstd::math::min(bl_y, tr_y) as i64,
            x1: vstd::math::max(bl_x, tr_x) as i64,
            y1: vstd::math::max(bl_y, tr_y) as i64,
        }
    }

    /// The glyph is a below-base dot or comma mark.
    pub fn is_dot_below(&self) -> (r: bool)
        ensures
            r == self.classes.dot_below,
    {
        self.classes.dot_below
    }

    /// The glyph is an above-base dot or fatha mark.
    pub fn is_dot_above(&self) -> (r: bool)
        ensures
            r == self.classes.dot_above,
    {
        self.classes.dot_above
    }

    /// The glyph is a final-form bari ye.
    pub fn is_bari_ye(&self) -> (r: bool)
        ensures
            r == self.classes.bari_ye,
    {
        self.classes.bari_ye
    }

    /// The glyph is an initial form.
    pub fn is_init(&self) -> (r: bool)
        ensures
            r == self.classes.init,
    {
        self.classes.init
    }

    /// The glyph is an isolated form.
    pub fn is_isol(&self) -> (r: bool)
        ensures
            r == self.classes.isol,
    {
        self.classes.isol
    }

    /// The glyph is a final form.
    pub fn is_fina(&self) -> (r: bool)
        ensures
            r == self.classes.fina,
    {
        self.classes.fina
    }

    /// The glyph is a space.
    pub fn is_space(&self) -> (r: bool)
        ensures
            r == self.classes.space,
    {
        self.classes.space
    }

    /// Bounding box of the positioned glyph, including the full
    /// running-total advance; corners are normalized.
    pub fn bounding_box(&self, extents: &GlyphExtents) -> (r: Rect)
        ensures
            r == self.spec_bounding_box(*extents),
    {
        let bl_x: i64 = extents.x_bearing as i64 + self.x_total_advance as i64
            + self.x_offset as i64;
        let bl_y: i64 = extents.y_bearing as i64 + extents.height as i64 + self.y_offset as i64;
        let tr_x: i64 = bl_x + extents.width as i64;
        let tr_y: i64 = bl_y - extents.height as i64;
        Rect {
            x0: if bl_x <= tr_x {
                bl_x
            } else {
                tr_x
            },
            y0: if bl_y <= tr_y {
                bl_y
            } else {
                tr_y
            },
            x1: if bl_x <= tr_x {
                tr_x
            } else {
                bl_x
            },
            y1: if bl_y <= tr_y {
                tr_y
            } else {
                bl_y
            },
        }
    }

    /// The glyph's contours positioned absolutely: a fresh translated
    /// copy, the glyph itself is never altered.
    pub fn positioned_paths(&self) -> (r: Vec<Vec<Segment>>)
        requires
            self.geometry_in_bounds(GLYPH_COORD_BOUND as int),
            -(GLYPH_COORD_BOUND as int) <= self.spec_dx() <= GLYPH_COORD_BOUND as int,
            -(GLYPH_COORD_BOUND as int) <= self.spec_dy() <= GLYPH_COORD_BOUND as int,
        ensures
            paths_view(r@) == self.spec_positioned(),
            paths_in_bounds(paths_view(r@), COORD_BOUND as int),
            r@.len() == self.paths@.len(),
    {
        let dx: i64 = self.x_total_advance as i64 + self.x_offset as i64;
        let dy: i64 = self.y_offset as i64;
        translate_paths_exec(&self.paths, dx, dy, Ghost(GLYPH_COORD_BOUND as int))
    }

    /// Collision test between two positioned glyphs. Glyphs whose
    /// bounding boxes do not overlap never collide, whatever their
    /// contours; otherwise every flattened edge pair of every contour
    /// pair is tested for a crossing.
    pub fn collides(
        &self,
        other: &GulzarGlyph,
        self_extents: &GlyphExtents,
        other_extents: &GlyphExtents,
        x_scale: i64,
    ) -> (r: bool)
        requires
            self.geometry_in_bounds(GLYPH_COORD_BOUND as int),
            other.geometry_in_bounds(GLYPH_COORD_BOUND as int),
            -(GLYPH_COORD_BOUND as int) <= self.spec_dx() <= GLYPH_COORD_BOUND as int,
            -(GLYPH_COORD_BOUND as int) <= self.spec_dy() <= GLYPH_COORD_BOUND as int,
            -(GLYPH_COORD_BOUND as int) <= other.spec_dx() <= GLYPH_COORD_BOUND as int,
            -(GLYPH_COORD_BOUND as int) <= other.spec_dy() <= GLYPH_COORD_BOUND as int,
            1 <= x_scale <= 0x100_0000,
        ensures
            r == self.spec_collides(other, *self_extents, *other_extents, x_scale as int),
            !rects_overlap(
                self.spec_bounding_box(*self_extents),
                other.spec_bounding_box(*other_extents),
            ) ==> r == false,
    {
        let bb1 = self.bounding_box(self_extents);
        let bb2 = other.bounding_box(other_extents);
        let ix0: i64 = if bb1.x0 >= bb2.x0 {
            bb1.x0
        } else {
            bb2.x0
        };
        let ix1: i64 = if bb1.x1 <= bb2.x1 {
            bb1.x1
        } else {
            bb2.x1
        };
        let iy0: i64 = if bb1.y0 >= bb2.y0 {
            bb1.y0
        } else {
            bb2.y0
        };
        let iy1: i64 = if bb1.y1 <= bb2.y1 {
            bb1.y1
        } else {
            bb2.y1
        };
        if !(ix0 < ix1 && iy0 < iy1) {
            return false;
        }
        let tol: i64 = 50 * x_scale;
        let my_paths = self.positioned_paths();
        let their_paths = other.positioned_paths();
        let ghost av = paths_view(my_paths@);
        let ghost bv = paths_view(their_paths@);
        let n1: usize = my_paths.len();
        let n2: usize = their_paths.len();
        let mut i: usize = 0;
        while i < n1
            invariant
                i <= n1,
                n1 == av.len(),
                n2 == bv.len(),
                av == paths_view(my_paths@),
                bv == paths_view(their_paths@),
                av == self.spec_positioned(),
                bv == other.spec_positioned(),
                rects_overlap(
                    self.spec_bounding_box(*self_extents),
                    other.spec_bounding_box(*other_extents),
                ),
                50 <= tol <= 0x3200_0000,
                tol == 50 * x_scale,
                paths_in_bounds(av, COORD_BOUND as int),
                paths_in_bounds(bv, COORD_BOUND as int),
                forall|ii: int, jj: int|
                    0 <= ii < i && 0 <= jj < bv.len() ==> !#[trigger] contours_collide_at(
                        av,
                        bv,
                        tol as int,
                        ii,
                        jj,
                    ),
            decreases n1 - i,
        {
            let mut j: usize = 0;
            while j < n2
                invariant
                    i < n1,
                    j <= n2,
                    n1 == av.len(),
                    n2 == bv.len(),
                    av == paths_view(my_paths@),
                    bv == paths_view(their_paths@),
                    av == self.spec_positioned(),
                    bv == other.spec_positioned(),
                    rects_overlap(
                        self.spec_bounding_box(*self_extents),
                        other.spec_bounding_box(*other_extents),
                    ),
                    50 <= tol <= 0x3200_0000,
                    tol == 50 * x_scale,
                    paths_in_bounds(av, COORD_BOUND as int),
                    paths_in_bounds(bv, COORD_BOUND as int),
                    forall|ii: int, jj: int|
                        0 <= ii < i && 0 <= jj < bv.len() ==> !#[trigger] contours_collide_at(
                            av,
                            bv,
                            tol as int,
                            ii,
                            jj,
                        ),
                    forall|jj: int|
                        0 <= jj < j ==> !#[trigger] contours_collide_at(
                            av,
                            bv,
                            tol as int,
                            i as int,
                            jj,
                        ),
                decreases n2 - j,
            {
                proof {
                    assert(av[i as int] == my_paths@[i as int]@);
                    assert(bv[j as int] == their_paths@[j as int]@);
                    assert(crate::geometry::path_in_bounds(av[i as int], COORD_BOUND as int));
                    assert(crate::geometry::path_in_bounds(bv[j as int], COORD_BOUND as int));
                }
                if intersects(&my_paths[i], &their_paths[j], tol) {
                    proof {
                        assert(contours_collide_at(av, bv, tol as int, i as int, j as int));
                    }
                    return true;
                }
                j += 1;
            }
            i += 1;
        }
        false
    }

    /// The collision decision: a bounding-box reject, then an
    /// exhaustive flattened-edge intersection search.
    pub open spec fn spec_collides(
        &self,
        other: &GulzarGlyph,
        se: GlyphExtents,
        oe: GlyphExtents,
        x_scale: int,
    ) -> bool {
        if !rects_overlap(self.spec_bounding_box(se), other.spec_bounding_box(oe)) {
            false
        } else {
            spec_any_contour_collision(
                self.spec_positioned(),
                other.spec_positioned(),
                50 * x_scale,
            )
        }
    }
}

} // verus!
