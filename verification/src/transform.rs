//! The affine world-to-pixel coordinate transform.

use crate::fixed::{clamp_fixed, clamp_coord, floor_div, COORD_LIMIT, SCALE};
use crate::geom::FixedPoint;
use vstd::prelude::*;

verus! {

/// Six fixed-point coefficients defining the affine mapping
/// `px = a*x + b*y + c`, `py = d*x + e*y + f` from world space to pixel
/// space.  Each coefficient carries `SCALE` subunits per unit, like the
/// coordinates it is applied to.
#[derive(Clone, Copy, PartialEq, Eq, Structural, Debug)]
pub struct AffineTransform {
    pub a: i64,
    pub b: i64,
    pub c: i64,
    pub d: i64,
    pub e: i64,
    pub f: i64,
}

/// The identity transform: world coordinates are already pixel coordinates.
pub open spec fn spec_identity() -> AffineTransform {
    AffineTransform { a: SCALE, b: 0, c: 0, d: 0, e: SCALE, f: 0 }
}

/// The pixel-space x coordinate of a transformed point before clamping.
/// Each product is scaled back by `SCALE` (Euclidean division) because both
/// factors carry fixed-point subunits.
pub open spec fn raw_x(t: AffineTransform, p: FixedPoint) -> int {
    t.a * p.x / (SCALE as int) + t.b * p.y / (SCALE as int) + t.c
}

/// The pixel-space y coordinate of a transformed point before clamping.
pub open spec fn raw_y(t: AffineTransform, p: FixedPoint) -> int {
    t.d * p.x / (SCALE as int) + t.e * p.y / (SCALE as int) + t.f
}

/// The fixed-point pixel-space position of a transformed point.
pub open spec fn fixed_pos(t: AffineTransform, p: FixedPoint) -> (int, int) {
    (clamp_fixed(raw_x(t, p)), clamp_fixed(raw_y(t, p)))
}

/// The integer pixel column a transformed point falls in (floor).
pub open spec fn pixel_col(t: AffineTransform, p: FixedPoint) -> int {
    fixed_pos(t, p).0 / (SCALE as int)
}

/// The integer pixel row a transformed point falls in (floor).
pub open spec fn pixel_row(t: AffineTransform, p: FixedPoint) -> int {
    fixed_pos(t, p).1 / (SCALE as int)
}

impl AffineTransform {
    /// The identity transform.
    pub fn identity() -> (r: AffineTransform)
        ensures
            r == spec_identity(),
    {
        AffineTransform { a: SCALE, b: 0, c: 0, d: 0, e: SCALE, f: 0 }
    }

    /// Apply the transform to one point, yielding its clamped fixed-point
    /// pixel-space position.
    pub fn apply(&self, p: FixedPoint) -> (r: (i64, i64))
        ensures
            r.0 == fixed_pos(*self, p).0,
            r.1 == fixed_pos(*self, p).1,
            -COORD_LIMIT <= r.0 <= COORD_LIMIT,
            -COORD_LIMIT <= r.1 <= COORD_LIMIT,
    {
        let x = Self::affine_component(self.a, self.b, self.c, p);
        let y = Self::affine_component(self.d, self.e, self.f, p);
        (x, y)
    }

    /// One row of the affine mapping: `u*p.x/SCALE + v*p.y/SCALE + w`,
    /// clamped into the working coordinate range.
    fn affine_component(u: i64, v: i64, w: i64, p: FixedPoint) -> (r: i64)
        ensures
            r == clamp_fixed(u * p.x / (SCALE as int) + v * p.y / (SCALE as int) + w),
            -COORD_LIMIT <= r <= COORD_LIMIT,
    {
        proof {
            assert(-0x4000_0000_0000_0000_0000_0000_0000_0000 <= (u as int) * (p.x as int)
                <= 0x4000_0000_0000_0000_0000_0000_0000_0000) by (nonlinear_arith)
                requires
                    i64::MIN <= u <= i64::MAX,
                    i64::MIN <= p.x <= i64::MAX,
            ;
            assert(-0x4000_0000_0000_0000_0000_0000_0000_0000 <= (v as int) * (p.y as int)
                <= 0x4000_0000_0000_0000_0000_0000_0000_0000) by (nonlinear_arith)
                requires
                    i64::MIN <= v <= i64::MAX,
                    i64::MIN <= p.y <= i64::MAX,
            ;
        }
        let px: i128 = (u as i128) * (p.x as i128);
        let py: i128 = (v as i128) * (p.y as i128);
        let qx: i128 = floor_div(px, SCALE as i128);
        let qy: i128 = floor_div(py, SCALE as i128);
        proof {
            let m: int = 0x8_0000_0000_0000_0000_0000_0000_0000;
            crate::fixed::lemma_quotient_bounded(px as int, SCALE as int, m);
            crate::fixed::lemma_quotient_bounded(py as int, SCALE as int, m);
        }
        clamp_coord(qx + qy + (w as i128))
    }
}

} // verus!
