//! Inter-glyph spacing and collision detection for Nastaliq-style shaping.
//!
//! Glyph outlines are collections of closed contours built from line and
//! quadratic-curve segments over integer font design units. The crate
//! measures the minimum distance between two outlines, solves for a
//! horizontal kerning offset that reaches a target distance, and tests
//! positioned outlines for physical overlap.

pub mod collision;
pub mod geometry;
pub mod glyph;
pub mod kerning;
pub mod oracle;
pub mod pathdist;
pub mod sqrt;

pub use geometry::Point;
pub use geometry::Segment;
pub use glyph::GulzarGlyph;
pub use glyph::GlyphClasses;
pub use glyph::GlyphExtents;
