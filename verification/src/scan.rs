//! Scan conversion: which pixels a geometry covers.
//!
//! The specification side defines, in exact integer arithmetic, the set of
//! pixels covered by each primitive part:
//!
//! * a point covers the pixel its transformed position falls in (floor);
//! * a line string covers, for each consecutive vertex pair, the pixels of
//!   an evenly stepped walk between the two endpoint pixels (one step per
//!   unit along the major axis, the minor axis rounded to nearest);
//! * a polygon covers a pixel when its centre lies inside the filled
//!   region under the even-odd rule, decided by the parity of ring edges
//!   that cross the centre's scanline to its left — holes subtract
//!   naturally.
//!
//! The executable side produces exactly those pixels, clipped to the grid.

use crate::fixed::{floor_div, lemma_quotient_bounded, COORD_LIMIT, SCALE};
use crate::geom::{FixedPoint, Geometry, PolygonShape, Shape};
use crate::transform::{fixed_pos, pixel_col, pixel_row, AffineTransform};
use vstd::prelude::*;

verus! {

/// Magnitude bound on integer pixel coordinates handed to segment walks.
/// Every pixel index that comes out of `pixel_col`/`pixel_row` lies well
/// within it, because transformed positions are clamped.
pub const PIX_LIMIT: i64 = 0x4_0000_0000_0000;

/// Larger of two integers.
pub open spec fn imax(a: int, b: int) -> int {
    if a >= b {
        a
    } else {
        b
    }
}

/// Absolute value of an integer.
pub open spec fn iabs(a: int) -> int {
    if a < 0 {
        -a
    } else {
        a
    }
}

/// Division rounding to nearest (half away from zero is not needed; ties
/// round up), for a positive divisor.
pub open spec fn rnd_div(num: int, den: int) -> int {
    (2 * num + den) / (2 * den)
}

/// Number of unit steps a segment walk takes: the larger axis span of the
/// two endpoint pixels.
pub open spec fn seg_steps(ax: int, ay: int, bx: int, by: int) -> int {
    imax(iabs(bx - ax), iabs(by - ay))
}

/// The pixel the segment walk stands on after `i` of its steps.
pub open spec fn seg_point(ax: int, ay: int, bx: int, by: int, i: int) -> (int, int) {
    let n = imax(seg_steps(ax, ay, bx, by), 1);
    (ax + rnd_div(i * (bx - ax), n), ay + rnd_div(i * (by - ay), n))
}

/// Whether the walk from pixel `(ax, ay)` to pixel `(bx, by)` stands on
/// `(px, py)` at some step.
pub open spec fn seg_covers(ax: int, ay: int, bx: int, by: int, px: int, py: int) -> bool {
    exists|i: int|
        0 <= i <= seg_steps(ax, ay, bx, by) && #[trigger] seg_point(ax, ay, bx, by, i) == (px, py)
}

/// Whether one of the first `k` consecutive-vertex segments of a line
/// string covers pixel `(px, py)`.
pub open spec fn line_covers_upto(
    t: AffineTransform,
    vs: Seq<FixedPoint>,
    k: int,
    px: int,
    py: int,
) -> bool {
    exists|k2: int|
        0 <= k2 < k && seg_covers(
            pixel_col(t, #[trigger] vs[k2]),
            pixel_row(t, vs[k2]),
            pixel_col(t, vs[k2 + 1]),
            pixel_row(t, vs[k2 + 1]),
            px,
            py,
        )
}

/// Whether a line string covers pixel `(px, py)`: some consecutive vertex
/// pair's segment walk stands on it.
pub open spec fn line_covers(t: AffineTransform, vs: Seq<FixedPoint>, px: int, py: int) -> bool {
    line_covers_upto(t, vs, vs.len() - 1, px, py)
}

/// The fixed-point coordinate of the centre of pixel index `i`.
pub open spec fn center_coord(i: int) -> int {
    i * (SCALE as int) + (SCALE as int) / 2
}

/// Whether the directed edge from `(pax, pay)` to `(pbx, pby)` crosses the
/// horizontal scanline at `yc` at or left of `xc`.  The vertical range is
/// half-open so an edge meeting a vertex is counted exactly once; the
/// left-of comparison multiplies the exact rational crossing abscissa out
/// by the edge's vertical span.
pub open spec fn edge_hits(pax: int, pay: int, pbx: int, pby: int, xc: int, yc: int) -> bool {
    let dy = pby - pay;
    ((pay <= yc < pby) || (pby <= yc < pay)) && (if dy > 0 {
        pax * dy + (yc - pay) * (pbx - pax) <= xc * dy
    } else {
        pax * dy + (yc - pay) * (pbx - pax) >= xc * dy
    })
}

/// Whether ring edge `j` (from vertex `j` to the next vertex, wrapping at
/// the end) hits `(xc, yc)` in the sense of `edge_hits`, after transform.
pub open spec fn ring_edge_hit(
    t: AffineTransform,
    ring: Seq<FixedPoint>,
    j: int,
    xc: int,
    yc: int,
) -> bool {
    let a = fixed_pos(t, ring[j]);
    let b = fixed_pos(t, ring[if j + 1 == ring.len() { 0int } else { j + 1 }]);
    edge_hits(a.0, a.1, b.0, b.1, xc, yc)
}

/// Number of the first `k` edges of a ring that hit `(xc, yc)`.
pub open spec fn ring_hits(
    t: AffineTransform,
    ring: Seq<FixedPoint>,
    xc: int,
    yc: int,
    k: int,
) -> nat
    decreases k,
{
    if k <= 0 {
        0
    } else {
        ring_hits(t, ring, xc, yc, k - 1) + (if ring_edge_hit(t, ring, k - 1, xc, yc) {
            1nat
        } else {
            0nat
        })
    }
}

/// Number of edge hits over the first `k` hole rings.
pub open spec fn holes_hits(
    t: AffineTransform,
    holes: Seq<Vec<FixedPoint>>,
    xc: int,
    yc: int,
    k: int,
) -> nat
    decreases k,
{
    if k <= 0 {
        0
    } else {
        holes_hits(t, holes, xc, yc, k - 1) + ring_hits(
            t,
            holes[k - 1]@,
            xc,
            yc,
            holes[k - 1]@.len() as int,
        )
    }
}

/// Total edge hits of a polygon (exterior ring plus all holes) at a point.
pub open spec fn poly_hits_at(t: AffineTransform, poly: PolygonShape, xc: int, yc: int) -> nat {
    ring_hits(t, poly.exterior@, xc, yc, poly.exterior@.len() as int) + holes_hits(
        t,
        poly.holes@,
        xc,
        yc,
        poly.holes@.len() as int,
    )
}

/// Whether a polygon covers pixel `(px, py)`: the pixel's centre sees an
/// odd number of crossing edges to its left (even-odd rule).
pub open spec fn poly_covers(t: AffineTransform, poly: PolygonShape, px: int, py: int) -> bool {
    poly_hits_at(t, poly, center_coord(px), center_coord(py)) % 2 == 1
}

/// Whether one primitive part covers pixel `(px, py)`.
pub open spec fn part_covers(t: AffineTransform, s: Shape, px: int, py: int) -> bool {
    match s {
        Shape::Point(p) => pixel_col(t, p) == px && pixel_row(t, p) == py,
        Shape::Line(vs) => line_covers(t, vs@, px, py),
        Shape::Polygon(poly) => poly_covers(t, poly, px, py),
    }
}

/// Whether one of the first `k` parts covers pixel `(px, py)`.
pub open spec fn covers_upto(
    t: AffineTransform,
    parts: Seq<Shape>,
    k: int,
    px: int,
    py: int,
) -> bool {
    exists|i: int| 0 <= i < k && part_covers(t, #[trigger] parts[i], px, py)
}

/// Whether a geometry covers pixel `(px, py)`: some part of it does.
pub open spec fn covers(t: AffineTransform, g: Geometry, px: int, py: int) -> bool {
    covers_upto(t, g.parts@, g.parts@.len() as int, px, py)
}

/// Whether a pixel list mentions pixel `(px, py)`.
pub open spec fn has_pixel(pts: Seq<(usize, usize)>, px: int, py: int) -> bool {
    exists|j: int| 0 <= j < pts.len() && (#[trigger] pts[j]).0 == px && pts[j].1 == py
}

/// All members of a pixel list lie inside a `w` by `h` grid.
pub open spec fn pixels_in_bounds(pts: Seq<(usize, usize)>, w: int, h: int) -> bool {
    forall|j: int| 0 <= j < pts.len() ==> (#[trigger] pts[j]).0 < w && pts[j].1 < h
}

pub proof fn lemma_has_pixel_push(s: Seq<(usize, usize)>, p: (usize, usize), px: int, py: int)
    ensures
        has_pixel(s.push(p), px, py) <==> (has_pixel(s, px, py) || (p.0 == px && p.1 == py)),
{
    if has_pixel(s, px, py) {
        let j = choose|j: int| 0 <= j < s.len() && (#[trigger] s[j]).0 == px && s[j].1 == py;
        assert(s.push(p)[j] == s[j]);
    }
    if p.0 == px && p.1 == py {
        assert(s.push(p)[s.len() as int] == p);
    }
    if has_pixel(s.push(p), px, py) {
        let j = choose|j: int|
            0 <= j < s.push(p).len() && (#[trigger] s.push(p)[j]).0 == px && s.push(p)[j].1 == py;
        if j < s.len() {
            assert(s[j] == s.push(p)[j]);
        } else {
            assert(s.push(p)[j] == p);
        }
    }
}

/// The rounded quotient of a dividend bounded by `m` multiples of the
/// divisor stays within `m` steps (plus rounding slack) of zero.
proof fn lemma_rnd_div_bounded(num: int, den: int, m: int)
    requires
        1 <= den,
        0 <= m,
        -(m * den) <= num <= m * den,
    ensures
        -(m + 2) <= rnd_div(num, den) <= m + 1,
{
    assert(-((m + 1) * (2 * den)) <= 2 * num + den <= (m + 1) * (2 * den)) by (nonlinear_arith)
        requires
            1 <= den,
            0 <= m,
            -(m * den) <= num <= m * den,
    ;
    lemma_quotient_bounded(2 * num + den, 2 * den, m + 1);
}

/// Rounded division, matching `rnd_div`.
fn rnd_div_exec(num: i128, den: i128) -> (r: i128)
    requires
        1 <= den <= 0x1_0000_0000_0000_0000,
        -0x1_0000_0000_0000_0000_0000_0000_0000 <= num <= 0x1_0000_0000_0000_0000_0000_0000_0000,
    ensures
        r == rnd_div(num as int, den as int),
{
    floor_div(2 * num + den, 2 * den)
}

/// Append pixel `(px, py)` to the list when it lies inside the grid; drop
/// it otherwise.  This is the single clipping point of the engine.
fn push_if_in_bounds(px: i128, py: i128, w: usize, h: usize, acc0: Vec<(usize, usize)>) -> (acc: Vec<(usize, usize)>)
    requires
        pixels_in_bounds(acc0@, w as int, h as int),
    ensures
        pixels_in_bounds(acc@, w as int, h as int),
        forall|x2: int, y2: int| #![trigger has_pixel(acc@, x2, y2)]
            0 <= x2 < w && 0 <= y2 < h ==> (has_pixel(acc@, x2, y2) <==> (has_pixel(acc0@, x2, y2)
                || (px == x2 && py == y2))),
{
    let ghost before = acc0@;
    let mut acc = acc0;
    if 0 <= px && px < w as i128 && 0 <= py && py < h as i128 {
        let p: (usize, usize) = (px as usize, py as usize);
        acc.push(p);
        proof {
            assert forall|x2: int, y2: int| #![trigger has_pixel(acc@, x2, y2)]
                0 <= x2 < w && 0 <= y2 < h implies (has_pixel(
                acc@,
                x2,
                y2,
            ) <==> (has_pixel(before, x2, y2) || (px == x2 && py == y2))) by {
                lemma_has_pixel_push(before, p, x2, y2);
            }
        }
    } else {
        proof {
            assert forall|x2: int, y2: int| #![trigger has_pixel(acc@, x2, y2)]
                0 <= x2 < w && 0 <= y2 < h implies (has_pixel(
                acc@,
                x2,
                y2,
            ) <==> (has_pixel(before, x2, y2) || (px == x2 && py == y2))) by {
                assert(!(px == x2 && py == y2));
            }
        }
    }
    acc
}

/// Append to the list every in-bounds pixel that the segment walk from
/// pixel `(ax, ay)` to pixel `(bx, by)` stands on.
fn seg_pixels(
    ax: i64,
    ay: i64,
    bx: i64,
    by: i64,
    w: usize,
    h: usize,
    acc0: Vec<(usize, usize)>,
) -> (acc: Vec<(usize, usize)>)
    requires
        w <= 0x1_0000_0000,
        h <= 0x1_0000_0000,
        -PIX_LIMIT <= ax <= PIX_LIMIT,
        -PIX_LIMIT <= ay <= PIX_LIMIT,
        -PIX_LIMIT <= bx <= PIX_LIMIT,
        -PIX_LIMIT <= by <= PIX_LIMIT,
        pixels_in_bounds(acc0@, w as int, h as int),
    ensures
        pixels_in_bounds(acc@, w as int, h as int),
        forall|px: int, py: int| #![trigger has_pixel(acc@, px, py)]
            0 <= px < w && 0 <= py < h ==> (has_pixel(acc@, px, py) <==> (has_pixel(acc0@, px, py)
                || seg_covers(ax as int, ay as int, bx as int, by as int, px, py))),
{
    let ghost orig = acc0@;
    let mut acc = acc0;
    let dx: i64 = bx - ax;
    let dy: i64 = by - ay;
    let adx: i64 = if dx < 0 {
        -dx
    } else {
        dx
    };
    let ady: i64 = if dy < 0 {
        -dy
    } else {
        dy
    };
    let n: i64 = if adx >= ady {
        adx
    } else {
        ady
    };
    let nn: i64 = if n >= 1 {
        n
    } else {
        1
    };
    assert(n == seg_steps(ax as int, ay as int, bx as int, by as int));
    assert(nn == imax(seg_steps(ax as int, ay as int, bx as int, by as int), 1));
    let mut i: i64 = 0;
    while i <= n
        invariant
            0 <= i <= n + 1,
            n == seg_steps(ax as int, ay as int, bx as int, by as int),
            nn == imax(n as int, 1),
            1 <= nn,
            n <= 2 * PIX_LIMIT,
            nn <= 2 * PIX_LIMIT,
            dx == bx - ax,
            dy == by - ay,
            -PIX_LIMIT <= ax <= PIX_LIMIT,
            -PIX_LIMIT <= ay <= PIX_LIMIT,
            -2 * PIX_LIMIT <= dx <= 2 * PIX_LIMIT,
            -2 * PIX_LIMIT <= dy <= 2 * PIX_LIMIT,
            w <= 0x1_0000_0000,
            h <= 0x1_0000_0000,
            pixels_in_bounds(acc@, w as int, h as int),
            forall|px: int, py: int| #![trigger has_pixel(acc@, px, py)]
                0 <= px < w && 0 <= py < h ==> (has_pixel(acc@, px, py) <==> (has_pixel(
                    orig,
                    px,
                    py,
                ) || exists|i2: int|
                    0 <= i2 < i && #[trigger] seg_point(
                        ax as int,
                        ay as int,
                        bx as int,
                        by as int,
                        i2,
                    ) == (px, py))),
        decreases n - i + 1,
    {
        proof {
            assert(-(iabs(dx as int) * nn) <= i * dx <= iabs(dx as int) * nn
                && -0x1_0000_0000_0000_0000_0000_0000_0000 <= i * dx
                    <= 0x1_0000_0000_0000_0000_0000_0000_0000) by (nonlinear_arith)
                requires
                    0 <= i <= nn,
                    -0x8_0000_0000_0000 <= dx <= 0x8_0000_0000_0000,
                    1 <= nn <= 0x8_0000_0000_0000,
            ;
            assert(-(iabs(dy as int) * nn) <= i * dy <= iabs(dy as int) * nn
                && -0x1_0000_0000_0000_0000_0000_0000_0000 <= i * dy
                    <= 0x1_0000_0000_0000_0000_0000_0000_0000) by (nonlinear_arith)
                requires
                    0 <= i <= nn,
                    -0x8_0000_0000_0000 <= dy <= 0x8_0000_0000_0000,
                    1 <= nn <= 0x8_0000_0000_0000,
            ;
            lemma_rnd_div_bounded(i as int * dx as int, nn as int, iabs(dx as int));
            lemma_rnd_div_bounded(i as int * dy as int, nn as int, iabs(dy as int));
        }
        let qx: i128 = rnd_div_exec((i as i128) * (dx as i128), nn as i128);
        let qy: i128 = rnd_div_exec((i as i128) * (dy as i128), nn as i128);
        let px: i128 = (ax as i128) + qx;
        let py: i128 = (ay as i128) + qy;
        assert((px as int, py as int) == seg_point(ax as int, ay as int, bx as int, by as int,
            i as int));
        let ghost acc_before = acc@;
        acc = push_if_in_bounds(px, py, w, h, acc);
        proof {
            let ghost sp = seg_point(ax as int, ay as int, bx as int, by as int, i as int);
            assert forall|x2: int, y2: int| #![trigger has_pixel(acc@, x2, y2)]
                0 <= x2 < w && 0 <= y2 < h implies (has_pixel(
                acc@,
                x2,
                y2,
            ) <==> (has_pixel(orig, x2, y2) || exists|i2: int|
                0 <= i2 < i + 1 && #[trigger] seg_point(ax as int, ay as int, bx as int, by as int,
                    i2) == (x2, y2))) by {
                if has_pixel(acc@, x2, y2) {
                    if !has_pixel(acc_before, x2, y2) {
                        assert(sp == (x2, y2));
                        assert(0 <= i && seg_point(ax as int, ay as int, bx as int, by as int,
                            i as int) == (x2, y2));
                    }
                }
                if exists|i2: int|
                    0 <= i2 < i + 1 && #[trigger] seg_point(ax as int, ay as int, bx as int,
                        by as int, i2) == (x2, y2) {
                    let i2 = choose|i2: int|
                        0 <= i2 < i + 1 && #[trigger] seg_point(ax as int, ay as int, bx as int,
                            by as int, i2) == (x2, y2);
                    if i2 == i as int {
                        assert(sp == (x2, y2));
                        assert(px == x2 && py == y2);
                        assert(has_pixel(acc@, x2, y2));
                    } else {
                        assert(has_pixel(acc_before, x2, y2));
                    }
                }
            }
        }
        i += 1;
    }
    acc
}


/// The integer pixel a point falls in after transform (floor of its
/// clamped fixed-point position).
fn pixel_of(t: &AffineTransform, p: FixedPoint) -> (r: (i64, i64))
    ensures
        r.0 == pixel_col(*t, p),
        r.1 == pixel_row(*t, p),
        -PIX_LIMIT <= r.0 <= PIX_LIMIT,
        -PIX_LIMIT <= r.1 <= PIX_LIMIT,
{
    let pos = t.apply(p);
    proof {
        lemma_quotient_bounded(pos.0 as int, SCALE as int, 0x200_0000_0000);
        lemma_quotient_bounded(pos.1 as int, SCALE as int, 0x200_0000_0000);
    }
    let cx = floor_div(pos.0 as i128, SCALE as i128);
    let cy = floor_div(pos.1 as i128, SCALE as i128);
    (cx as i64, cy as i64)
}

/// Append every in-bounds pixel covered by a line string.
fn line_pixels(
    t: &AffineTransform,
    vs: &Vec<FixedPoint>,
    w: usize,
    h: usize,
    acc0: Vec<(usize, usize)>,
) -> (acc: Vec<(usize, usize)>)
    requires
        w <= 0x1_0000_0000,
        h <= 0x1_0000_0000,
        pixels_in_bounds(acc0@, w as int, h as int),
    ensures
        pixels_in_bounds(acc@, w as int, h as int),
        forall|px: int, py: int| #![trigger has_pixel(acc@, px, py)]
            0 <= px < w && 0 <= py < h ==> (has_pixel(acc@, px, py) <==> (has_pixel(acc0@, px, py)
                || line_covers(*t, vs@, px, py))),
{
    let ghost orig = acc0@;
    let mut acc = acc0;
    if vs.len() < 2 {
        return acc;
    }
    let mut k: usize = 0;
    while k < vs.len() - 1
        invariant
            vs@.len() >= 2,
            k + 1 <= vs@.len(),
            w <= 0x1_0000_0000,
            h <= 0x1_0000_0000,
            pixels_in_bounds(acc@, w as int, h as int),
            forall|px: int, py: int| #![trigger has_pixel(acc@, px, py)]
                0 <= px < w && 0 <= py < h ==> (has_pixel(acc@, px, py) <==> (has_pixel(
                    orig,
                    px,
                    py,
                ) || line_covers_upto(*t, vs@, k as int, px, py))),
        decreases vs@.len() - k,
    {
        let a = pixel_of(t, vs[k]);
        let b = pixel_of(t, vs[k + 1]);
        let ghost acc_before = acc@;
        acc = seg_pixels(a.0, a.1, b.0, b.1, w, h, acc);
        proof {
            assert forall|x2: int, y2: int| #![trigger has_pixel(acc@, x2, y2)]
                0 <= x2 < w && 0 <= y2 < h implies (has_pixel(acc@, x2, y2) <==> (has_pixel(
                orig,
                x2,
                y2,
            ) || line_covers_upto(*t, vs@, k as int + 1, x2, y2))) by {
                if has_pixel(acc@, x2, y2) && !has_pixel(acc_before, x2, y2) {
                    assert(seg_covers(a.0 as int, a.1 as int, b.0 as int, b.1 as int, x2, y2));
                    assert(seg_covers(
                        pixel_col(*t, vs@[k as int]),
                        pixel_row(*t, vs@[k as int]),
                        pixel_col(*t, vs@[k as int + 1]),
                        pixel_row(*t, vs@[k as int + 1]),
                        x2,
                        y2,
                    ));
                }
                if line_covers_upto(*t, vs@, k as int + 1, x2, y2) {
                    let k2 = choose|k2: int|
                        0 <= k2 < k as int + 1 && seg_covers(
                            pixel_col(*t, #[trigger] vs@[k2]),
                            pixel_row(*t, vs@[k2]),
                            pixel_col(*t, vs@[k2 + 1]),
                            pixel_row(*t, vs@[k2 + 1]),
                            x2,
                            y2,
                        );
                    if k2 == k as int {
                        assert(has_pixel(acc@, x2, y2));
                    } else {
                        assert(line_covers_upto(*t, vs@, k as int, x2, y2));
                    }
                }
            }
        }
        k += 1;
    }
    acc
}

/// Whether an edge crosses the scanline `yc` at or left of `xc`, in exact
/// integer arithmetic on clamped fixed-point endpoints.
fn edge_hits_exec(ax: i64, ay: i64, bx: i64, by: i64, xc: i128, yc: i128) -> (r: bool)
    requires
        -COORD_LIMIT <= ax <= COORD_LIMIT,
        -COORD_LIMIT <= ay <= COORD_LIMIT,
        -COORD_LIMIT <= bx <= COORD_LIMIT,
        -COORD_LIMIT <= by <= COORD_LIMIT,
        -0x20_0000_0000_0000 <= xc <= 0x20_0000_0000_0000,
        -0x20_0000_0000_0000 <= yc <= 0x20_0000_0000_0000,
    ensures
        r == edge_hits(ax as int, ay as int, bx as int, by as int, xc as int, yc as int),
{
    let crosses = ((ay as i128) <= yc && yc < (by as i128)) || ((by as i128) <= yc && yc < (
    ay as i128));
    if !crosses {
        return false;
    }
    let dy: i128 = (by as i128) - (ay as i128);
    proof {
        assert(-0x40_0000_0000_0000_0000_0000_0000_0000_0 <= (ax as int) * (by - ay)
            <= 0x40_0000_0000_0000_0000_0000_0000_0000_0) by (nonlinear_arith)
            requires
                -COORD_LIMIT <= ax <= COORD_LIMIT,
                -COORD_LIMIT <= ay <= COORD_LIMIT,
                -COORD_LIMIT <= by <= COORD_LIMIT,
        ;
        assert(-0x40_0000_0000_0000_0000_0000_0000_0000_0 <= (yc - ay) * ((bx as int) - (
        ax as int)) <= 0x40_0000_0000_0000_0000_0000_0000_0000_0) by (nonlinear_arith)
            requires
                -COORD_LIMIT <= ax <= COORD_LIMIT,
                -COORD_LIMIT <= ay <= COORD_LIMIT,
                -COORD_LIMIT <= bx <= COORD_LIMIT,
                -0x20_0000_0000_0000 <= yc <= 0x20_0000_0000_0000,
        ;
        assert(-0x40_0000_0000_0000_0000_0000_0000_0000_0 <= xc * ((by as int) - (ay as int))
            <= 0x40_0000_0000_0000_0000_0000_0000_0000_0) by (nonlinear_arith)
            requires
                -COORD_LIMIT <= ay <= COORD_LIMIT,
                -COORD_LIMIT <= by <= COORD_LIMIT,
                -0x20_0000_0000_0000 <= xc <= 0x20_0000_0000_0000,
        ;
    }
    let lhs: i128 = (ax as i128) * dy + (yc - (ay as i128)) * ((bx as i128) - (ax as i128));
    let rhs: i128 = xc * dy;
    if dy > 0 {
        lhs <= rhs
    } else {
        lhs >= rhs
    }
}

/// One transformed ring: the clamped fixed-point position of each vertex.
fn transform_ring(t: &AffineTransform, ring: &Vec<FixedPoint>) -> (out: Vec<(i64, i64)>)
    ensures
        out@.len() == ring@.len(),
        forall|j: int| #![trigger out@[j]]
            0 <= j < ring@.len() ==> out@[j].0 == fixed_pos(*t, ring@[j]).0 && out@[j].1
                == fixed_pos(*t, ring@[j]).1,
{
    let mut out: Vec<(i64, i64)> = Vec::new();
    let mut j: usize = 0;
    while j < ring.len()
        invariant
            j <= ring@.len(),
            out@.len() == j,
            forall|j2: int| #![trigger out@[j2]]
                0 <= j2 < j ==> out@[j2].0 == fixed_pos(*t, ring@[j2]).0 && out@[j2].1
                    == fixed_pos(*t, ring@[j2]).1,
        decreases ring@.len() - j,
    {
        let pos = t.apply(ring[j]);
        out.push(pos);
        j += 1;
    }
    out
}

/// Whether an odd number of a ring's edges hit `(xc, yc)`.
fn ring_odd(
    ringv: &Vec<(i64, i64)>,
    xc: i128,
    yc: i128,
    Ghost(t): Ghost<AffineTransform>,
    Ghost(ring): Ghost<Seq<FixedPoint>>,
) -> (odd: bool)
    requires
        ringv@.len() == ring.len(),
        forall|j: int| #![trigger ringv@[j]]
            0 <= j < ring.len() ==> ringv@[j].0 == fixed_pos(t, ring[j]).0 && ringv@[j].1
                == fixed_pos(t, ring[j]).1,
        -0x20_0000_0000_0000 <= xc <= 0x20_0000_0000_0000,
        -0x20_0000_0000_0000 <= yc <= 0x20_0000_0000_0000,
    ensures
        odd == (ring_hits(t, ring, xc as int, yc as int, ring.len() as int) % 2 == 1),
{
    let n = ringv.len();
    let mut odd = false;
    let mut j: usize = 0;
    while j < n
        invariant
            n == ring.len(),
            j <= n,
            ringv@.len() == ring.len(),
            forall|j2: int| #![trigger ringv@[j2]]
                0 <= j2 < ring.len() ==> ringv@[j2].0 == fixed_pos(t, ring[j2]).0 && ringv@[j2].1
                    == fixed_pos(t, ring[j2]).1,
            -0x20_0000_0000_0000 <= xc <= 0x20_0000_0000_0000,
            -0x20_0000_0000_0000 <= yc <= 0x20_0000_0000_0000,
            odd == (ring_hits(t, ring, xc as int, yc as int, j as int) % 2 == 1),
        decreases n - j,
    {
        let a = ringv[j];
        let b = if j + 1 == n {
            ringv[0]
        } else {
            ringv[j + 1]
        };
        let hit = edge_hits_exec(a.0, a.1, b.0, b.1, xc, yc);
        proof {
            assert(a.0 == fixed_pos(t, ring[j as int]).0);
            assert(hit == ring_edge_hit(t, ring, j as int, xc as int, yc as int));
            assert(ring_hits(t, ring, xc as int, yc as int, j as int + 1) == ring_hits(
                t,
                ring,
                xc as int,
                yc as int,
                j as int,
            ) + (if ring_edge_hit(t, ring, j as int, xc as int, yc as int) {
                1nat
            } else {
                0nat
            }));
        }
        odd = if hit {
            !odd
        } else {
            odd
        };
        j += 1;
    }
    odd
}

/// Whether the pixel centre `(xc, yc)` lies inside the polygon under the
/// even-odd rule, over the polygon's transformed rings.
fn point_in_rings(
    text: &Vec<(i64, i64)>,
    tholes: &Vec<Vec<(i64, i64)>>,
    xc: i128,
    yc: i128,
    Ghost(t): Ghost<AffineTransform>,
    Ghost(poly): Ghost<PolygonShape>,
) -> (r: bool)
    requires
        text@.len() == poly.exterior@.len(),
        forall|j: int| #![trigger text@[j]]
            0 <= j < text@.len() ==> text@[j].0 == fixed_pos(t, poly.exterior@[j]).0 && text@[j].1
                == fixed_pos(t, poly.exterior@[j]).1,
        tholes@.len() == poly.holes@.len(),
        forall|k: int| #![trigger tholes@[k]]
            0 <= k < tholes@.len() ==> tholes@[k]@.len() == poly.holes@[k]@.len(),
        forall|k: int, j: int| #![trigger tholes@[k]@[j]]
            0 <= k < tholes@.len() && 0 <= j < tholes@[k]@.len() ==> tholes@[k]@[j].0 == fixed_pos(
                t,
                poly.holes@[k]@[j],
            ).0 && tholes@[k]@[j].1 == fixed_pos(t, poly.holes@[k]@[j]).1,
        -0x20_0000_0000_0000 <= xc <= 0x20_0000_0000_0000,
        -0x20_0000_0000_0000 <= yc <= 0x20_0000_0000_0000,
    ensures
        r == (poly_hits_at(t, poly, xc as int, yc as int) % 2 == 1),
{
    let mut odd = ring_odd(text, xc, yc, Ghost(t), Ghost(poly.exterior@));
    let ghost ext_hits = ring_hits(
        t,
        poly.exterior@,
        xc as int,
        yc as int,
        poly.exterior@.len() as int,
    );
    let mut k: usize = 0;
    while k < tholes.len()
        invariant
            tholes@.len() == poly.holes@.len(),
            k <= tholes@.len(),
            forall|k2: int| #![trigger tholes@[k2]]
                0 <= k2 < tholes@.len() ==> tholes@[k2]@.len() == poly.holes@[k2]@.len(),
            forall|k2: int, j: int| #![trigger tholes@[k2]@[j]]
                0 <= k2 < tholes@.len() && 0 <= j < tholes@[k2]@.len() ==> tholes@[k2]@[j].0
                    == fixed_pos(t, poly.holes@[k2]@[j]).0 && tholes@[k2]@[j].1 == fixed_pos(
                    t,
                    poly.holes@[k2]@[j],
                ).1,
            -0x20_0000_0000_0000 <= xc <= 0x20_0000_0000_0000,
            -0x20_0000_0000_0000 <= yc <= 0x20_0000_0000_0000,
            ext_hits == ring_hits(
                t,
                poly.exterior@,
                xc as int,
                yc as int,
                poly.exterior@.len() as int,
            ),
            odd == ((ext_hits + holes_hits(t, poly.holes@, xc as int, yc as int, k as int)) % 2
                == 1),
        decreases tholes@.len() - k,
    {
        let ghost hole_hits = ring_hits(
            t,
            poly.holes@[k as int]@,
            xc as int,
            yc as int,
            poly.holes@[k as int]@.len() as int,
        );
        let hodd = ring_odd(&tholes[k], xc, yc, Ghost(t), Ghost(poly.holes@[k as int]@));
        proof {
            assert(holes_hits(t, poly.holes@, xc as int, yc as int, k as int + 1) == holes_hits(
                t,
                poly.holes@,
                xc as int,
                yc as int,
                k as int,
            ) + hole_hits);
            let a = (ext_hits + holes_hits(t, poly.holes@, xc as int, yc as int, k as int)) as int;
            let b = hole_hits as int;
            vstd::arithmetic::div_mod::lemma_add_mod_noop(a, b, 2);
        }
        odd = if hodd {
            !odd
        } else {
            odd
        };
        k += 1;
    }
    odd
}

/// Append every pixel whose centre lies inside the polygon.
fn polygon_pixels(
    t: &AffineTransform,
    poly: &PolygonShape,
    w: usize,
    h: usize,
    acc0: Vec<(usize, usize)>,
) -> (acc: Vec<(usize, usize)>)
    requires
        w <= 0x1_0000_0000,
        h <= 0x1_0000_0000,
        pixels_in_bounds(acc0@, w as int, h as int),
    ensures
        pixels_in_bounds(acc@, w as int, h as int),
        forall|px: int, py: int| #![trigger has_pixel(acc@, px, py)]
            0 <= px < w && 0 <= py < h ==> (has_pixel(acc@, px, py) <==> (has_pixel(acc0@, px, py)
                || poly_covers(*t, *poly, px, py))),
{
    let ghost orig = acc0@;
    let text = transform_ring(t, &poly.exterior);
    let mut tholes: Vec<Vec<(i64, i64)>> = Vec::new();
    let mut k: usize = 0;
    while k < poly.holes.len()
        invariant
            k <= poly.holes@.len(),
            tholes@.len() == k,
            forall|k2: int| #![trigger tholes@[k2]]
                0 <= k2 < k ==> tholes@[k2]@.len() == poly.holes@[k2]@.len(),
            forall|k2: int, j: int| #![trigger tholes@[k2]@[j]]
                0 <= k2 < k && 0 <= j < tholes@[k2]@.len() ==> tholes@[k2]@[j].0 == fixed_pos(
                    *t,
                    poly.holes@[k2]@[j],
                ).0 && tholes@[k2]@[j].1 == fixed_pos(*t, poly.holes@[k2]@[j]).1,
        decreases poly.holes@.len() - k,
    {
        let tr = transform_ring(t, &poly.holes[k]);
        tholes.push(tr);
        k += 1;
    }
    let mut acc = acc0;
    let mut y: usize = 0;
    while y < h
        invariant
            w <= 0x1_0000_0000,
            h <= 0x1_0000_0000,
            y <= h,
            text@.len() == poly.exterior@.len(),
            forall|j: int| #![trigger text@[j]]
                0 <= j < text@.len() ==> text@[j].0 == fixed_pos(*t, poly.exterior@[j]).0
                    && text@[j].1 == fixed_pos(*t, poly.exterior@[j]).1,
            tholes@.len() == poly.holes@.len(),
            forall|k2: int| #![trigger tholes@[k2]]
                0 <= k2 < tholes@.len() ==> tholes@[k2]@.len() == poly.holes@[k2]@.len(),
            forall|k2: int, j: int| #![trigger tholes@[k2]@[j]]
                0 <= k2 < tholes@.len() && 0 <= j < tholes@[k2]@.len() ==> tholes@[k2]@[j].0
                    == fixed_pos(*t, poly.holes@[k2]@[j]).0 && tholes@[k2]@[j].1 == fixed_pos(
                    *t,
                    poly.holes@[k2]@[j],
                ).1,
            pixels_in_bounds(acc@, w as int, h as int),
            forall|px: int, py: int| #![trigger has_pixel(acc@, px, py)]
                0 <= px < w && 0 <= py < h ==> (has_pixel(acc@, px, py) <==> (has_pixel(
                    orig,
                    px,
                    py,
                ) || (poly_covers(*t, *poly, px, py) && py < y))),
        decreases h - y,
    {
        proof {
            assert(0 <= (y as int) * 1_000_000 <= 0x10_0000_0000_0000) by (nonlinear_arith)
                requires
                    0 <= y <= 0x1_0000_0000,
            ;
        }
        let yc: i128 = (y as i128) * (SCALE as i128) + 500_000;
        assert(yc == center_coord(y as int));
        let mut x: usize = 0;
        while x < w
            invariant
                w <= 0x1_0000_0000,
                h <= 0x1_0000_0000,
                y < h,
                x <= w,
                yc == center_coord(y as int),
                -0x20_0000_0000_0000 <= yc <= 0x20_0000_0000_0000,
                text@.len() == poly.exterior@.len(),
                forall|j: int| #![trigger text@[j]]
                    0 <= j < text@.len() ==> text@[j].0 == fixed_pos(*t, poly.exterior@[j]).0
                        && text@[j].1 == fixed_pos(*t, poly.exterior@[j]).1,
                tholes@.len() == poly.holes@.len(),
                forall|k2: int| #![trigger tholes@[k2]]
                    0 <= k2 < tholes@.len() ==> tholes@[k2]@.len() == poly.holes@[k2]@.len(),
                forall|k2: int, j: int| #![trigger tholes@[k2]@[j]]
                    0 <= k2 < tholes@.len() && 0 <= j < tholes@[k2]@.len() ==> tholes@[k2]@[j].0
                        == fixed_pos(*t, poly.holes@[k2]@[j]).0 && tholes@[k2]@[j].1 == fixed_pos(
                        *t,
                        poly.holes@[k2]@[j],
                    ).1,
                pixels_in_bounds(acc@, w as int, h as int),
                forall|px: int, py: int| #![trigger has_pixel(acc@, px, py)]
                    0 <= px < w && 0 <= py < h ==> (has_pixel(acc@, px, py) <==> (has_pixel(
                        orig,
                        px,
                        py,
                    ) || (poly_covers(*t, *poly, px, py) && (py < y || (py == y && px < x))))),
            decreases w - x,
        {
            proof {
                assert(0 <= (x as int) * 1_000_000 <= 0x10_0000_0000_0000) by (nonlinear_arith)
                    requires
                        0 <= x <= 0x1_0000_0000,
                ;
            }
            let xc: i128 = (x as i128) * (SCALE as i128) + 500_000;
            assert(xc == center_coord(x as int));
            let inside = point_in_rings(&text, &tholes, xc, yc, Ghost(*t), Ghost(*poly));
            let ghost acc_before = acc@;
            if inside {
                acc = push_if_in_bounds(x as i128, y as i128, w, h, acc);
            }
            proof {
                assert(inside == poly_covers(*t, *poly, x as int, y as int));
                assert forall|x2: int, y2: int| #![trigger has_pixel(acc@, x2, y2)]
                    0 <= x2 < w && 0 <= y2 < h implies (has_pixel(acc@, x2, y2) <==> (has_pixel(
                    orig,
                    x2,
                    y2,
                ) || (poly_covers(*t, *poly, x2, y2) && (y2 < y || (y2 == y && x2 < x + 1))))) by {
                    if x2 == x as int && y2 == y as int {
                    } else {
                    }
                }
            }
            x += 1;
        }
        y += 1;
    }
    acc
}

/// The exact in-bounds pixel set of one geometry: every listed pixel lies
/// inside the grid, and a pixel is listed exactly when some part of the
/// geometry covers it.  Pixels may be listed more than once; the merge
/// step deduplicates per shape.
pub fn shape_pixels(
    t: &AffineTransform,
    g: &Geometry,
    w: usize,
    h: usize,
) -> (pts: Vec<(usize, usize)>)
    requires
        w <= 0x1_0000_0000,
        h <= 0x1_0000_0000,
    ensures
        pixels_in_bounds(pts@, w as int, h as int),
        forall|px: int, py: int| #![trigger has_pixel(pts@, px, py)]
            0 <= px < w && 0 <= py < h ==> (has_pixel(pts@, px, py) <==> (covers(*t, *g, px, py))),
{
    let mut acc: Vec<(usize, usize)> = Vec::new();
    let mut m: usize = 0;
    while m < g.parts.len()
        invariant
            m <= g.parts@.len(),
            w <= 0x1_0000_0000,
            h <= 0x1_0000_0000,
            pixels_in_bounds(acc@, w as int, h as int),
            forall|px: int, py: int| #![trigger has_pixel(acc@, px, py)]
                0 <= px < w && 0 <= py < h ==> (has_pixel(acc@, px, py) <==> (covers_upto(
                    *t,
                    g.parts@,
                    m as int,
                    px,
                    py,
                ))),
        decreases g.parts@.len() - m,
    {
        let ghost acc_before = acc@;
        let part = &g.parts[m];
        match part {
            Shape::Point(p) => {
                let pc = pixel_of(t, *p);
                acc = push_if_in_bounds(pc.0 as i128, pc.1 as i128, w, h, acc);
            },
            Shape::Line(vs) => {
                acc = line_pixels(t, vs, w, h, acc);
            },
            Shape::Polygon(poly) => {
                acc = polygon_pixels(t, poly, w, h, acc);
            },
        }
        proof {
            assert forall|x2: int, y2: int| #![trigger has_pixel(acc@, x2, y2)]
                0 <= x2 < w && 0 <= y2 < h implies (has_pixel(acc@, x2, y2) <==> covers_upto(
                *t,
                g.parts@,
                m as int + 1,
                x2,
                y2,
            )) by {
                assert(has_pixel(acc@, x2, y2) <==> (has_pixel(acc_before, x2, y2) || part_covers(
                    *t,
                    g.parts@[m as int],
                    x2,
                    y2,
                )));
                if has_pixel(acc@, x2, y2) && !has_pixel(acc_before, x2, y2) {
                    assert(part_covers(*t, g.parts@[m as int], x2, y2));
                }
                if covers_upto(*t, g.parts@, m as int + 1, x2, y2) {
                    let i2 = choose|i2: int|
                        0 <= i2 < m as int + 1 && part_covers(*t, #[trigger] g.parts@[i2], x2, y2);
                    if i2 == m as int {
                        assert(has_pixel(acc@, x2, y2));
                    } else {
                        assert(covers_upto(*t, g.parts@, m as int, x2, y2));
                    }
                }
            }
        }
        m += 1;
    }
    acc
}


} // verus!
