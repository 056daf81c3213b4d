//! Geometry entities: fixed-point coordinates and the shapes built of them.
//!
//! Every geometry, including the multi-part and collection forms, is held
//! as a flat list of primitive parts (points, line strings, polygons).
//! The list is treated as one shape by the rasterizer: its parts share one
//! foreground value, and pixels covered by several parts are merged once.

use vstd::prelude::*;

verus! {

/// A planar position in fixed-point representation: `x` and `y` carry
/// `fixed::SCALE` subunits per coordinate unit.
#[derive(Clone, Copy, PartialEq, Eq, Structural, Debug)]
pub struct FixedPoint {
    pub x: i64,
    pub y: i64,
}

impl FixedPoint {
    /// A point given in fixed-point subunits.
    pub fn new(x: i64, y: i64) -> (r: FixedPoint)
        ensures
            r == (FixedPoint { x, y }),
    {
        FixedPoint { x, y }
    }

    /// A point given in whole coordinate units.
    pub fn from_units(x: i64, y: i64) -> (r: FixedPoint)
        requires
            x * crate::fixed::SCALE <= i64::MAX,
            x * crate::fixed::SCALE >= i64::MIN,
            y * crate::fixed::SCALE <= i64::MAX,
            y * crate::fixed::SCALE >= i64::MIN,
        ensures
            r.x == x * crate::fixed::SCALE,
            r.y == y * crate::fixed::SCALE,
    {
        FixedPoint { x: x * crate::fixed::SCALE, y: y * crate::fixed::SCALE }
    }
}

/// A polygon: one exterior ring and zero or more interior hole rings.
/// Rings need not repeat their first vertex; the closing edge is implied.
#[derive(Clone, Debug)]
pub struct PolygonShape {
    pub exterior: Vec<FixedPoint>,
    pub holes: Vec<Vec<FixedPoint>>,
}

/// One primitive drawable part of a geometry.
#[derive(Clone, Debug)]
pub enum Shape {
    /// A single point, covering at most the one pixel it falls in.
    Point(FixedPoint),
    /// A line string: consecutive vertex pairs are rasterized as segments.
    Line(Vec<FixedPoint>),
    /// A filled polygon with holes, under the even-odd rule.
    Polygon(PolygonShape),
}

/// A geometry entity: a flat list of primitive parts treated as one shape.
#[derive(Clone, Debug)]
pub struct Geometry {
    pub parts: Vec<Shape>,
}

/// The concatenation of the part lists of a sequence of geometries.
pub open spec fn parts_of_all(gs: Seq<Geometry>) -> Seq<Shape>
    decreases gs.len(),
{
    if gs.len() == 0 {
        Seq::empty()
    } else {
        parts_of_all(gs.drop_last()) + gs.last().parts@
    }
}

impl Geometry {
    /// A single point geometry.
    pub fn point(p: FixedPoint) -> (r: Geometry)
        ensures
            r.parts@ =~= seq![Shape::Point(p)],
    {
        Geometry { parts: vec![Shape::Point(p)] }
    }

    /// A line string through the given vertices, in order.
    pub fn line_string(vs: Vec<FixedPoint>) -> (r: Geometry)
        ensures
            r.parts@ =~= seq![Shape::Line(vs)],
    {
        Geometry { parts: vec![Shape::Line(vs)] }
    }

    /// A polygon with an exterior ring and hole rings.
    pub fn polygon(exterior: Vec<FixedPoint>, holes: Vec<Vec<FixedPoint>>) -> (r: Geometry)
        ensures
            r.parts@ =~= seq![Shape::Polygon(PolygonShape { exterior, holes })],
    {
        Geometry { parts: vec![Shape::Polygon(PolygonShape { exterior, holes })] }
    }

    /// A multi-point geometry: one part per member point.
    pub fn multi_point(ps: Vec<FixedPoint>) -> (r: Geometry)
        ensures
            r.parts@.len() == ps@.len(),
            forall|i: int| 0 <= i < ps@.len() ==> r.parts@[i] == Shape::Point(ps@[i]),
    {
        let mut parts: Vec<Shape> = Vec::new();
        let mut k: usize = 0;
        while k < ps.len()
            invariant
                k <= ps@.len(),
                parts@.len() == k,
                forall|i: int| 0 <= i < k ==> parts@[i] == Shape::Point(ps@[i]),
            decreases ps@.len() - k,
        {
            parts.push(Shape::Point(ps[k]));
            k += 1;
        }
        Geometry { parts }
    }

    /// A multi-line-string geometry: one part per member line string.
    pub fn multi_line_string(ls: Vec<Vec<FixedPoint>>) -> (r: Geometry)
        ensures
            r.parts@.len() == ls@.len(),
            forall|i: int| 0 <= i < ls@.len() ==> r.parts@[i] == Shape::Line(ls@[i]),
    {
        let ghost orig = ls@;
        let mut rest = ls;
        let mut parts: Vec<Shape> = Vec::new();
        while rest.len() > 0
            invariant
                parts@.len() + rest@.len() == orig.len(),
                rest@ == orig.subrange(parts@.len() as int, orig.len() as int),
                forall|i: int| 0 <= i < parts@.len() ==> parts@[i] == Shape::Line(orig[i]),
            decreases rest@.len(),
        {
            let v = rest.remove(0);
            parts.push(Shape::Line(v));
        }
        Geometry { parts }
    }

    /// A multi-polygon geometry: one part per member polygon.
    pub fn multi_polygon(ps: Vec<PolygonShape>) -> (r: Geometry)
        ensures
            r.parts@.len() == ps@.len(),
            forall|i: int| 0 <= i < ps@.len() ==> r.parts@[i] == Shape::Polygon(ps@[i]),
    {
        let ghost orig = ps@;
        let mut rest = ps;
        let mut parts: Vec<Shape> = Vec::new();
        while rest.len() > 0
            invariant
                parts@.len() + rest@.len() == orig.len(),
                rest@ == orig.subrange(parts@.len() as int, orig.len() as int),
                forall|i: int| 0 <= i < parts@.len() ==> parts@[i] == Shape::Polygon(orig[i]),
            decreases rest@.len(),
        {
            let p = rest.remove(0);
            parts.push(Shape::Polygon(p));
        }
        Geometry { parts }
    }

    /// A geometry collection: the member geometries' parts, concatenated in
    /// order, treated as one shape.
    pub fn collection(gs: Vec<Geometry>) -> (r: Geometry)
        ensures
            r.parts@ == parts_of_all(gs@),
    {
        let ghost orig = gs@;
        let mut rest = gs;
        let mut parts: Vec<Shape> = Vec::new();
        while rest.len() > 0
            invariant
                rest@.len() <= orig.len(),
                rest@ == orig.subrange(orig.len() - rest@.len(), orig.len() as int),
                parts@ == parts_of_all(orig.take(orig.len() - rest@.len())),
            decreases rest@.len(),
        {
            let ghost done = orig.len() - rest@.len();
            let mut g = rest.remove(0);
            let ghost before = parts@;
            let ghost gparts = g.parts@;
            while g.parts.len() > 0
                invariant
                    g.parts@.len() <= gparts.len(),
                    g.parts@ == gparts.subrange(
                        gparts.len() - g.parts@.len(),
                        gparts.len() as int,
                    ),
                    parts@ == before + gparts.take(gparts.len() - g.parts@.len()),
                decreases g.parts@.len(),
            {
                let ghost j = gparts.len() - g.parts@.len();
                let s = g.parts.remove(0);
                proof {
                    assert(s == gparts[j]);
                    assert(gparts.take(j + 1) =~= gparts.take(j).push(gparts[j]));
                    assert(before + gparts.take(j + 1) =~= (before + gparts.take(j)).push(
                        gparts[j]));
                }
                parts.push(s);
            }
            proof {
                assert(gparts.take(gparts.len() as int) =~= gparts);
                assert(orig.take(done + 1).drop_last() =~= orig.take(done as int));
                assert(orig.take(done + 1).last() == orig[done as int]);
                assert(orig[done as int].parts@ == gparts);
            }
        }
        proof {
            assert(orig.take(orig.len() as int) =~= orig);
        }
        Geometry { parts }
    }
}

} // verus!
