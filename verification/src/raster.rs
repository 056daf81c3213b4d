//! Orchestration: burn an ordered list of (geometry, foreground) jobs into
//! a grid, under a merge algorithm and an optional affine transform, with
//! a proved binary-mask fast path; and the laws the engine obeys.

use crate::geom::{FixedPoint, Geometry};
use crate::grid::{cell_at, lemma_row_major, merge_value, MergeAlgorithm, RasterGrid};
use crate::pixel::PixelValue;
use crate::scan::{covers, has_pixel, pixels_in_bounds, shape_pixels};
use crate::transform::{pixel_col, pixel_row};
use crate::transform::{spec_identity, AffineTransform};
use vstd::prelude::*;

verus! {

/// Why a rasterization call is rejected.
#[derive(Clone, Copy, PartialEq, Eq, Structural, Debug)]
pub enum RasterError {
    /// The geometry count and the foreground count differ.
    InputMismatch,
    /// The requested numeric pixel type is outside the supported set.
    UnsupportedType,
    /// The algorithm selector names no known merge algorithm.
    UnsupportedAlgorithm,
}

/// Whether one of the first `k` geometries covers pixel `(x, y)`.
pub open spec fn covers_any(
    geoms: Seq<Geometry>,
    t: AffineTransform,
    k: int,
    x: int,
    y: int,
) -> bool {
    exists|i: int| 0 <= i < k && covers(t, #[trigger] geoms[i], x, y)
}

/// The value of pixel `(x, y)` after burning the first `k` (geometry,
/// foreground) jobs, in order, into a grid whose every pixel starts at
/// the background value.
pub open spec fn final_value<T: PixelValue>(
    geoms: Seq<Geometry>,
    fgs: Seq<T>,
    t: AffineTransform,
    bg: T,
    alg: MergeAlgorithm,
    k: int,
    x: int,
    y: int,
) -> T
    decreases k,
{
    if k <= 0 {
        bg
    } else {
        let prev = final_value(geoms, fgs, t, bg, alg, k - 1, x, y);
        if covers(t, geoms[k - 1], x, y) {
            merge_value(alg, prev, fgs[k - 1])
        } else {
            prev
        }
    }
}

/// The effective transform of a call: the one supplied, or identity.
pub open spec fn transform_or_identity(o: Option<AffineTransform>) -> AffineTransform {
    match o {
        Option::Some(t) => t,
        Option::None => spec_identity(),
    }
}

/// A pixel covered by no shape holds the background value exactly,
/// whatever the merge algorithm and foregrounds.
pub proof fn lemma_untouched_pixel_is_background<T: PixelValue>(
    geoms: Seq<Geometry>,
    fgs: Seq<T>,
    t: AffineTransform,
    bg: T,
    alg: MergeAlgorithm,
    k: int,
    x: int,
    y: int,
)
    requires
        forall|i: int| 0 <= i < k ==> !covers(t, #[trigger] geoms[i], x, y),
    ensures
        final_value(geoms, fgs, t, bg, alg, k, x, y) == bg,
    decreases k,
{
    if k > 0 {
        lemma_untouched_pixel_is_background(geoms, fgs, t, bg, alg, k - 1, x, y);
    }
}

/// Burning zero shapes leaves every pixel at the background: the result
/// equals a freshly initialized background-filled grid of the same size.
pub proof fn lemma_zero_shapes_keep_background<T: PixelValue>(
    geoms: Seq<Geometry>,
    fgs: Seq<T>,
    t: AffineTransform,
    bg: T,
    alg: MergeAlgorithm,
    x: int,
    y: int,
)
    ensures
        final_value(geoms, fgs, t, bg, alg, 0, x, y) == bg,
{
}

/// The index of the last of the first `k` geometries that covers
/// `(x, y)`, or `-1` when none does.
pub open spec fn last_covering(
    geoms: Seq<Geometry>,
    t: AffineTransform,
    k: int,
    x: int,
    y: int,
) -> int
    decreases k,
{
    if k <= 0 {
        -1
    } else if covers(t, geoms[k - 1], x, y) {
        k - 1
    } else {
        last_covering(geoms, t, k - 1, x, y)
    }
}

/// `last_covering` finds exactly the last covering shape: it is `-1`
/// exactly when no shape covers the pixel, and otherwise names a covering
/// shape after which no further shape covers it.
pub proof fn lemma_last_covering_found(
    geoms: Seq<Geometry>,
    t: AffineTransform,
    k: int,
    x: int,
    y: int,
)
    requires
        0 <= k,
    ensures
        (last_covering(geoms, t, k, x, y) >= 0) == covers_any(geoms, t, k, x, y),
        last_covering(geoms, t, k, x, y) < k,
        last_covering(geoms, t, k, x, y) >= 0 ==> covers(
            t,
            geoms[last_covering(geoms, t, k, x, y)],
            x,
            y,
        ),
        forall|i: int|
            last_covering(geoms, t, k, x, y) < i < k ==> !covers(t, #[trigger] geoms[i], x, y),
    decreases k,
{
    if k > 0 {
        lemma_last_covering_found(geoms, t, k - 1, x, y);
    }
}

/// Under `Replace`, a covered pixel holds the foreground of the last
/// covering shape in input order, and an uncovered pixel the background.
pub proof fn lemma_replace_takes_last<T: PixelValue>(
    geoms: Seq<Geometry>,
    fgs: Seq<T>,
    t: AffineTransform,
    bg: T,
    k: int,
    x: int,
    y: int,
)
    ensures
        final_value(geoms, fgs, t, bg, MergeAlgorithm::Replace, k, x, y) == (if last_covering(
            geoms,
            t,
            k,
            x,
            y,
        ) >= 0 {
            fgs[last_covering(geoms, t, k, x, y)]
        } else {
            bg
        }),
    decreases k,
{
    if k > 0 {
        lemma_replace_takes_last(geoms, fgs, t, bg, k - 1, x, y);
    }
}

/// The foregrounds of the covering shapes among the first `k`, in input
/// order.
pub open spec fn covering_foregrounds<T: PixelValue>(
    geoms: Seq<Geometry>,
    fgs: Seq<T>,
    t: AffineTransform,
    k: int,
    x: int,
    y: int,
) -> Seq<T>
    decreases k,
{
    if k <= 0 {
        Seq::empty()
    } else {
        let prefix = covering_foregrounds(geoms, fgs, t, k - 1, x, y);
        if covers(t, geoms[k - 1], x, y) {
            prefix.push(fgs[k - 1])
        } else {
            prefix
        }
    }
}

/// Left fold of wrapping addition over a sequence, from a start value.
pub open spec fn wrap_sum<T: PixelValue>(start: T, vals: Seq<T>) -> T
    decreases vals.len(),
{
    if vals.len() == 0 {
        start
    } else {
        wrap_sum(start, vals.drop_last()).wrap_add(vals.last())
    }
}

/// Under `Add`, a pixel holds the background plus the wrapping sum of the
/// foregrounds of every shape that covers it, in input order.
pub proof fn lemma_add_accumulates<T: PixelValue>(
    geoms: Seq<Geometry>,
    fgs: Seq<T>,
    t: AffineTransform,
    bg: T,
    k: int,
    x: int,
    y: int,
)
    ensures
        final_value(geoms, fgs, t, bg, MergeAlgorithm::Add, k, x, y) == wrap_sum(
            bg,
            covering_foregrounds(geoms, fgs, t, k, x, y),
        ),
    decreases k,
{
    if k > 0 {
        lemma_add_accumulates(geoms, fgs, t, bg, k - 1, x, y);
        if covers(t, geoms[k - 1], x, y) {
            let prefix = covering_foregrounds(geoms, fgs, t, k - 1, x, y);
            assert(prefix.push(fgs[k - 1]).drop_last() =~= prefix);
        }
    }
}

/// With background zero, every foreground one, and `Replace`, every pixel
/// is one where some shape covers it and zero elsewhere: the binary mask.
pub proof fn lemma_fast_path_matches<T: PixelValue>(
    geoms: Seq<Geometry>,
    fgs: Seq<T>,
    t: AffineTransform,
    k: int,
    x: int,
    y: int,
)
    requires
        0 <= k <= fgs.len(),
        forall|i: int| 0 <= i < fgs.len() ==> #[trigger] fgs[i] == T::one_spec(),
    ensures
        final_value(geoms, fgs, t, T::zero_spec(), MergeAlgorithm::Replace, k, x, y) == (
        if covers_any(geoms, t, k, x, y) {
            T::one_spec()
        } else {
            T::zero_spec()
        }),
    decreases k,
{
    if k > 0 {
        lemma_fast_path_matches::<T>(geoms, fgs, t, k - 1, x, y);
        if covers(t, geoms[k - 1], x, y) {
            assert(covers_any(geoms, t, k, x, y));
        } else {
            if covers_any(geoms, t, k, x, y) {
                let i = choose|i: int| 0 <= i < k && covers(t, #[trigger] geoms[i], x, y);
                assert(covers_any(geoms, t, k - 1, x, y));
            }
        }
    }
}

/// A shape that covers nothing at a pixel leaves its value unchanged.
pub proof fn lemma_uncovered_shape_no_change<T: PixelValue>(
    geoms: Seq<Geometry>,
    fgs: Seq<T>,
    t: AffineTransform,
    bg: T,
    alg: MergeAlgorithm,
    k: int,
    x: int,
    y: int,
)
    requires
        0 <= k,
        !covers(t, geoms[k], x, y),
    ensures
        final_value(geoms, fgs, t, bg, alg, k + 1, x, y) == final_value(
            geoms,
            fgs,
            t,
            bg,
            alg,
            k,
            x,
            y,
        ),
{
}

/// A point geometry whose pixel falls outside the grid covers no
/// in-bounds pixel, so it contributes no change: clipping, not an error.
pub proof fn lemma_point_outside_covers_nothing(
    t: AffineTransform,
    p: FixedPoint,
    g: Geometry,
    w: int,
    h: int,
    x: int,
    y: int,
)
    requires
        g.parts@ =~= seq![crate::geom::Shape::Point(p)],
        !(0 <= pixel_col(t, p) < w && 0 <= pixel_row(t, p) < h),
        0 <= x < w,
        0 <= y < h,
    ensures
        !covers(t, g, x, y),
{
    if covers(t, g, x, y) {
        let i = choose|i: int|
            0 <= i < g.parts@.len() && crate::scan::part_covers(t, #[trigger] g.parts@[i], x, y);
        assert(g.parts@[i] == crate::geom::Shape::Point(p));
    }
}

/// Rasterize through the generic path: each job's covered pixels are
/// merged into the grid in input order.
pub fn rasterize_generic<T: PixelValue>(
    geometries: &Vec<Geometry>,
    foregrounds: &Vec<T>,
    width: usize,
    height: usize,
    background: T,
    algorithm: MergeAlgorithm,
    t: &AffineTransform,
) -> (res: Result<RasterGrid<T>, RasterError>)
    requires
        1 <= width <= 0x1_0000_0000,
        1 <= height <= 0x1_0000_0000,
        width * height <= usize::MAX,
    ensures
        match res {
            Ok(g) => geometries@.len() == foregrounds@.len() && g.wf() && g.width == width
                && g.height == height && (forall|x: int, y: int| #![trigger g.at(x, y)]
                0 <= x < width && 0 <= y < height ==> g.at(x, y) == (final_value(
                    geometries@,
                    foregrounds@,
                    *t,
                    background,
                    algorithm,
                    geometries@.len() as int,
                    x,
                    y,
                ))),
            Err(e) => geometries@.len() != foregrounds@.len() && e == RasterError::InputMismatch,
        },
{
    if geometries.len() != foregrounds.len() {
        return Err(RasterError::InputMismatch);
    }
    let mut grid: RasterGrid<T> = RasterGrid::new(width, height, background);
    let mut i: usize = 0;
    while i < geometries.len()
        invariant
            i <= geometries@.len(),
            geometries@.len() == foregrounds@.len(),
            1 <= width <= 0x1_0000_0000,
            1 <= height <= 0x1_0000_0000,
            grid.wf(),
            grid.width == width,
            grid.height == height,
            forall|x: int, y: int| #![trigger grid.at(x, y)]
                0 <= x < width && 0 <= y < height ==> grid.at(x, y) == (final_value(
                    geometries@,
                    foregrounds@,
                    *t,
                    background,
                    algorithm,
                    i as int,
                    x,
                    y,
                )),
        decreases geometries@.len() - i,
    {
        let ghost gbefore = grid;
        let pts = shape_pixels(t, &geometries[i], width, height);
        let fg = foregrounds[i];
        grid = grid.merge_shape(&pts, fg, algorithm);
        proof {
            assert forall|x: int, y: int| #![trigger grid.at(x, y)]
                0 <= x < width && 0 <= y < height implies grid.at(x, y) == (final_value(
                geometries@,
                foregrounds@,
                *t,
                background,
                algorithm,
                i as int + 1,
                x,
                y,
            )) by {
                assert(final_value(
                    geometries@,
                    foregrounds@,
                    *t,
                    background,
                    algorithm,
                    i as int + 1,
                    x,
                    y,
                ) == (if covers(*t, geometries@[i as int], x, y) {
                    merge_value(
                        algorithm,
                        final_value(
                            geometries@,
                            foregrounds@,
                            *t,
                            background,
                            algorithm,
                            i as int,
                            x,
                            y,
                        ),
                        foregrounds@[i as int],
                    )
                } else {
                    final_value(
                        geometries@,
                        foregrounds@,
                        *t,
                        background,
                        algorithm,
                        i as int,
                        x,
                        y,
                    )
                }));
            }
        }
        i += 1;
    }
    Ok(grid)
}

/// Mark every pixel of one shape's list in a boolean mask.
fn mark_pixels(mask0: Vec<bool>, pts: &Vec<(usize, usize)>, w: usize, h: usize) -> (mask: Vec<bool>)
    requires
        mask0@.len() == w * h,
        pixels_in_bounds(pts@, w as int, h as int),
    ensures
        mask@.len() == w * h,
        forall|x: int, y: int| #![trigger cell_at(mask@, w as int, x, y)]
            0 <= x < w && 0 <= y < h ==> (cell_at(mask@, w as int, x, y) == (cell_at(
                mask0@,
                w as int,
                x,
                y,
            ) || has_pixel(pts@, x, y))),
{
    let ghost orig = mask0@;
    let mut mask = mask0;
    let n = mask.len();
    let mut j: usize = 0;
    while j < pts.len()
        invariant
            j <= pts@.len(),
            n == w * h,
            mask@.len() == n,
            orig.len() == w * h,
            pixels_in_bounds(pts@, w as int, h as int),
            forall|x: int, y: int| #![trigger cell_at(mask@, w as int, x, y)]
                0 <= x < w && 0 <= y < h ==> (cell_at(mask@, w as int, x, y) == (cell_at(
                    orig,
                    w as int,
                    x,
                    y,
                ) || has_pixel(pts@.take(j as int), x, y))),
        decreases pts@.len() - j,
    {
        let p = pts[j];
        let px = p.0;
        let py = p.1;
        proof {
            lemma_row_major(w as int, h as int, px as int, py as int);
        }
        let idx = py * w + px;
        let ghost mask_before = mask@;
        mask.set(idx, true);
        proof {
            assert(pts@.take(j as int + 1) =~= pts@.take(j as int).push(pts@[j as int]));
            assert forall|x: int, y: int| #![trigger cell_at(mask@, w as int, x, y)]
                0 <= x < w && 0 <= y < h implies (cell_at(mask@, w as int, x, y) == (cell_at(
                orig,
                w as int,
                x,
                y,
            ) || has_pixel(pts@.take(j as int + 1), x, y))) by {
                lemma_row_major(w as int, h as int, x, y);
                crate::scan::lemma_has_pixel_push(pts@.take(j as int), pts@[j as int], x, y);
                let idx2 = y * (w as int) + x;
                assert(cell_at(mask_before, w as int, x, y) == mask_before[idx2]);
                if x == px as int && y == py as int {
                    assert(idx2 == idx as int);
                } else {
                    if idx2 == idx as int {
                        crate::grid::lemma_row_major_unique(
                            w as int,
                            h as int,
                            px as int,
                            py as int,
                            x,
                            y,
                        );
                    }
                    assert(mask@[idx2] == mask_before[idx2]);
                }
                assert(cell_at(mask@, w as int, x, y) == mask@[idx2]);
            }
        }
        j += 1;
    }
    proof {
        assert(pts@.take(pts@.len() as int) =~= pts@);
    }
    mask
}

/// The binary fast path: build a boolean coverage mask with the same scan
/// conversion and clipping, then cast it to the numeric type (covered
/// pixels become one, the rest zero).
pub fn rasterize_binary<T: PixelValue>(
    geometries: &Vec<Geometry>,
    width: usize,
    height: usize,
    t: &AffineTransform,
) -> (g: RasterGrid<T>)
    requires
        1 <= width <= 0x1_0000_0000,
        1 <= height <= 0x1_0000_0000,
        width * height <= usize::MAX,
    ensures
        g.wf(),
        g.width == width,
        g.height == height,
        forall|x: int, y: int| #![trigger g.at(x, y)]
            0 <= x < width && 0 <= y < height ==> g.at(x, y) == (if covers_any(
                geometries@,
                *t,
                geometries@.len() as int,
                x,
                y,
            ) {
                T::one_spec()
            } else {
                T::zero_spec()
            }),
{
    let n = width * height;
    let mut mask: Vec<bool> = Vec::new();
    let mut i0: usize = 0;
    while i0 < n
        invariant
            i0 <= n,
            mask@.len() == i0,
            forall|j: int| 0 <= j < i0 ==> #[trigger] mask@[j] == false,
        decreases n - i0,
    {
        mask.push(false);
        i0 += 1;
    }
    proof {
        assert forall|x: int, y: int| #![trigger cell_at(mask@, width as int, x, y)]
            0 <= x < width && 0 <= y < height implies (cell_at(mask@, width as int, x, y)
            == covers_any(geometries@, *t, 0, x, y)) by {
            lemma_row_major(width as int, height as int, x, y);
        }
    }
    let mut i: usize = 0;
    while i < geometries.len()
        invariant
            i <= geometries@.len(),
            1 <= width <= 0x1_0000_0000,
            1 <= height <= 0x1_0000_0000,
            width * height <= usize::MAX,
            mask@.len() == width * height,
            forall|x: int, y: int| #![trigger cell_at(mask@, width as int, x, y)]
                0 <= x < width && 0 <= y < height ==> (cell_at(mask@, width as int, x, y)
                    == covers_any(geometries@, *t, i as int, x, y)),
        decreases geometries@.len() - i,
    {
        let ghost mask_before = mask@;
        let pts = shape_pixels(t, &geometries[i], width, height);
        mask = mark_pixels(mask, &pts, width, height);
        proof {
            assert forall|x: int, y: int| #![trigger cell_at(mask@, width as int, x, y)]
                0 <= x < width && 0 <= y < height implies (cell_at(mask@, width as int, x, y)
                == covers_any(geometries@, *t, i as int + 1, x, y)) by {
                if cell_at(mask@, width as int, x, y) {
                    if cell_at(mask_before, width as int, x, y) {
                        assert(covers_any(geometries@, *t, i as int, x, y));
                        let i2 = choose|i2: int|
                            0 <= i2 < i as int && covers(*t, #[trigger] geometries@[i2], x, y);
                        assert(covers_any(geometries@, *t, i as int + 1, x, y));
                    } else {
                        assert(covers(*t, geometries@[i as int], x, y));
                        assert(covers_any(geometries@, *t, i as int + 1, x, y));
                    }
                }
                if covers_any(geometries@, *t, i as int + 1, x, y) {
                    let i2 = choose|i2: int|
                        0 <= i2 < i as int + 1 && covers(*t, #[trigger] geometries@[i2], x, y);
                    if i2 == i as int {
                        assert(has_pixel(pts@, x, y));
                    } else {
                        assert(covers_any(geometries@, *t, i as int, x, y));
                    }
                }
            }
        }
        i += 1;
    }
    let one: T = T::one();
    let zero: T = T::zero();
    let mut cells: Vec<T> = Vec::new();
    let mut k: usize = 0;
    while k < n
        invariant
            k <= n,
            n == width * height,
            mask@.len() == n,
            cells@.len() == k,
            one == T::one_spec(),
            zero == T::zero_spec(),
            forall|j: int|
                0 <= j < k ==> #[trigger] cells@[j] == (if mask@[j] {
                    T::one_spec()
                } else {
                    T::zero_spec()
                }),
        decreases n - k,
    {
        let v: T = if mask[k] {
            one
        } else {
            zero
        };
        cells.push(v);
        k += 1;
    }
    let g = RasterGrid { width, height, cells };
    proof {
        assert forall|x: int, y: int| #![trigger g.at(x, y)]
            0 <= x < width && 0 <= y < height implies g.at(x, y) == (if covers_any(
            geometries@,
            *t,
            geometries@.len() as int,
            x,
            y,
        ) {
            T::one_spec()
        } else {
            T::zero_spec()
        }) by {
            lemma_row_major(width as int, height as int, x, y);
            let idx2 = y * (width as int) + x;
            assert(g.at(x, y) == g.cells@[idx2]);
            assert(cell_at(mask@, width as int, x, y) == mask@[idx2]);
        }
    }
    g
}

/// Whether every foreground equals the numeric one.
fn all_foregrounds_one<T: PixelValue>(fgs: &Vec<T>) -> (r: bool)
    ensures
        r == (forall|i: int| 0 <= i < fgs@.len() ==> #[trigger] fgs@[i] == T::one_spec()),
{
    let one: T = T::one();
    let mut i: usize = 0;
    while i < fgs.len()
        invariant
            i <= fgs@.len(),
            one == T::one_spec(),
            forall|j: int| 0 <= j < i ==> #[trigger] fgs@[j] == T::one_spec(),
        decreases fgs@.len() - i,
    {
        if !fgs[i].eq_value(one) {
            proof {
                assert(fgs@[i as int] != T::one_spec());
            }
            return false;
        }
        i += 1;
    }
    true
}

/// The single entry point: burn each geometry with its foreground into a
/// `width` by `height` grid initialized to `background`, in input order,
/// under the merge algorithm, with coordinates mapped by the transform
/// (identity when none is given).  Rejected, before any work, when the
/// geometry and foreground counts differ.  When the background is the
/// numeric zero, the algorithm is `Replace`, and every foreground is the
/// numeric one, the binary fast path runs instead — proved to give the
/// same grid.
pub fn rasterize<T: PixelValue>(
    geometries: &Vec<Geometry>,
    foregrounds: &Vec<T>,
    width: usize,
    height: usize,
    background: T,
    algorithm: MergeAlgorithm,
    transform: Option<AffineTransform>,
) -> (res: Result<RasterGrid<T>, RasterError>)
    requires
        1 <= width <= 0x1_0000_0000,
        1 <= height <= 0x1_0000_0000,
        width * height <= usize::MAX,
    ensures
        match res {
            Ok(g) => geometries@.len() == foregrounds@.len() && g.wf() && g.width == width
                && g.height == height && (forall|x: int, y: int| #![trigger g.at(x, y)]
                0 <= x < width && 0 <= y < height ==> g.at(x, y) == (final_value(
                    geometries@,
                    foregrounds@,
                    transform_or_identity(transform),
                    background,
                    algorithm,
                    geometries@.len() as int,
                    x,
                    y,
                ))),
            Err(e) => geometries@.len() != foregrounds@.len() && e == RasterError::InputMismatch,
        },
{
    if geometries.len() != foregrounds.len() {
        return Err(RasterError::InputMismatch);
    }
    let t: AffineTransform = match transform {
        Option::Some(tr) => tr,
        Option::None => AffineTransform::identity(),
    };
    let fast = background.eq_value(T::zero()) && algorithm == MergeAlgorithm::Replace
        && all_foregrounds_one(foregrounds);
    if fast {
        let g = rasterize_binary::<T>(geometries, width, height, &t);
        proof {
            assert forall|x: int, y: int| #![trigger g.at(x, y)]
                0 <= x < width && 0 <= y < height implies g.at(x, y) == (final_value(
                geometries@,
                foregrounds@,
                t,
                background,
                algorithm,
                geometries@.len() as int,
                x,
                y,
            )) by {
                lemma_fast_path_matches::<T>(
                    geometries@,
                    foregrounds@,
                    t,
                    geometries@.len() as int,
                    x,
                    y,
                );
            }
        }
        Ok(g)
    } else {
        rasterize_generic(geometries, foregrounds, width, height, background, algorithm, &t)
    }
}

} // verus!
