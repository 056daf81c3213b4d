//! The raster grid and the merge of one shape's pixels into it.

use crate::pixel::PixelValue;
use crate::scan::{has_pixel, pixels_in_bounds};
use vstd::prelude::*;

verus! {

/// How a shape's foreground is combined with a pixel's current value.
#[derive(Clone, Copy, PartialEq, Eq, Structural, Debug)]
pub enum MergeAlgorithm {
    /// Overwrite: later shapes win at overlapping pixels.
    Replace,
    /// Accumulate with the type's wrapping addition.
    Add,
}

/// The merged value of a pixel under an algorithm.
pub open spec fn merge_value<T: PixelValue>(alg: MergeAlgorithm, current: T, foreground: T) -> T {
    match alg {
        MergeAlgorithm::Replace => foreground,
        MergeAlgorithm::Add => current.wrap_add(foreground),
    }
}

/// The cell of a row-major buffer at column `x` of row `y`.
pub open spec fn cell_at<T>(cells: Seq<T>, w: int, x: int, y: int) -> T {
    cells[y * w + x]
}

/// A row-major index stays inside the buffer.
pub proof fn lemma_row_major(w: int, h: int, x: int, y: int)
    requires
        0 <= x < w,
        0 <= y < h,
    ensures
        0 <= y * w + x < w * h,
{
    assert(0 <= y * w + x < w * h) by (nonlinear_arith)
        requires
            0 <= x < w,
            0 <= y < h,
    ;
}

/// Equal row-major indices come from equal coordinates.
pub proof fn lemma_row_major_unique(w: int, h: int, x: int, y: int, x2: int, y2: int)
    requires
        0 <= x < w,
        0 <= y < h,
        0 <= x2 < w,
        0 <= y2 < h,
        y2 * w + x2 == y * w + x,
    ensures
        x2 == x,
        y2 == y,
{
    assert(x2 == x && y2 == y) by (nonlinear_arith)
        requires
            0 <= x < w,
            0 <= y < h,
            0 <= x2 < w,
            0 <= y2 < h,
            y2 * w + x2 == y * w + x,
    ;
}

/// A generic width by height buffer of pixel values, in row-major order.
pub struct RasterGrid<T> {
    pub width: usize,
    pub height: usize,
    pub cells: Vec<T>,
}

impl<T: PixelValue> RasterGrid<T> {
    /// Well-formed: the buffer holds exactly `width * height` cells.
    pub open spec fn wf(self) -> bool {
        self.cells@.len() == self.width * self.height
    }

    /// The value of pixel `(x, y)`.
    pub open spec fn at(self, x: int, y: int) -> T {
        cell_at(self.cells@, self.width as int, x, y)
    }

    /// A grid fully initialized to the background value.
    pub fn new(width: usize, height: usize, background: T) -> (g: RasterGrid<T>)
        requires
            width * height <= usize::MAX,
        ensures
            g.wf(),
            g.width == width,
            g.height == height,
            forall|x: int, y: int|
                0 <= x < width && 0 <= y < height ==> #[trigger] g.at(x, y) == background,
    {
        let n = width * height;
        let mut cells: Vec<T> = Vec::new();
        let mut i: usize = 0;
        while i < n
            invariant
                i <= n,
                cells@.len() == i,
                forall|j: int| 0 <= j < i ==> #[trigger] cells@[j] == background,
            decreases n - i,
        {
            cells.push(background);
            i += 1;
        }
        let g = RasterGrid { width, height, cells };
        proof {
            assert forall|x: int, y: int|
                0 <= x < width && 0 <= y < height implies #[trigger] g.at(x, y) == background by {
                lemma_row_major(width as int, height as int, x, y);
            }
        }
        g
    }

    /// Read the value of pixel `(x, y)`.
    pub fn value_at(&self, x: usize, y: usize) -> (v: T)
        requires
            self.wf(),
            x < self.width,
            y < self.height,
        ensures
            v == self.at(x as int, y as int),
    {
        let n = self.cells.len();
        proof {
            lemma_row_major(self.width as int, self.height as int, x as int, y as int);
        }
        let idx = y * self.width + x;
        assert(idx < n);
        self.cells[idx]
    }

    /// Burn one shape's pixel list into the grid with one foreground
    /// value.  Every listed pixel is merged exactly once, however often
    /// the list mentions it, so a shape never double-counts under `Add`.
    pub fn merge_shape(self, pts: &Vec<(usize, usize)>, foreground: T, alg: MergeAlgorithm) -> (g:
        RasterGrid<T>)
        requires
            self.wf(),
            pixels_in_bounds(pts@, self.width as int, self.height as int),
        ensures
            g.wf(),
            g.width == self.width,
            g.height == self.height,
            forall|x: int, y: int| #![trigger g.at(x, y)]
                0 <= x < self.width && 0 <= y < self.height ==> g.at(x, y) == (if has_pixel(
                    pts@,
                    x,
                    y,
                ) {
                    merge_value(alg, self.at(x, y), foreground)
                } else {
                    self.at(x, y)
                }),
    {
        let w = self.width;
        let h = self.height;
        let ghost orig = self.cells@;
        let n = self.cells.len();
        let mut cells = self.cells;
        let mut seen: Vec<bool> = Vec::new();
        let mut i: usize = 0;
        while i < n
            invariant
                i <= n,
                seen@.len() == i,
                forall|j2: int| 0 <= j2 < i ==> #[trigger] seen@[j2] == false,
            decreases n - i,
        {
            seen.push(false);
            i += 1;
        }
        proof {
            assert forall|x: int, y: int|
                #![trigger cell_at(seen@, w as int, x, y)]
                #![trigger cell_at(cells@, w as int, x, y)]
                0 <= x < w && 0 <= y < h implies (cell_at(seen@, w as int, x, y) == false
                && cell_at(cells@, w as int, x, y) == cell_at(orig, w as int, x, y)) by {
                lemma_row_major(w as int, h as int, x, y);
            }
        }
        let mut j: usize = 0;
        while j < pts.len()
            invariant
                j <= pts@.len(),
                w == self.width,
                h == self.height,
                n == w * h,
                cells@.len() == n,
                seen@.len() == n,
                orig == self.cells@,
                orig.len() == n,
                pixels_in_bounds(pts@, w as int, h as int),
                forall|x: int, y: int| #![trigger cell_at(seen@, w as int, x, y)]
                    0 <= x < w && 0 <= y < h ==> (cell_at(seen@, w as int, x, y) == has_pixel(
                        pts@.take(j as int),
                        x,
                        y,
                    )),
                forall|x: int, y: int| #![trigger cell_at(cells@, w as int, x, y)]
                    0 <= x < w && 0 <= y < h ==> cell_at(cells@, w as int, x, y) == (if has_pixel(
                        pts@.take(j as int),
                        x,
                        y,
                    ) {
                        merge_value(alg, cell_at(orig, w as int, x, y), foreground)
                    } else {
                        cell_at(orig, w as int, x, y)
                    }),
            decreases pts@.len() - j,
        {
            let p = pts[j];
            let px = p.0;
            let py = p.1;
            proof {
                lemma_row_major(w as int, h as int, px as int, py as int);
            }
            let idx = py * w + px;
            let ghost seen_before = seen@;
            let ghost cells_before = cells@;
            if !seen[idx] {
                seen.set(idx, true);
                let cur = cells[idx];
                let merged = match alg {
                    MergeAlgorithm::Replace => foreground,
                    MergeAlgorithm::Add => cur.add_wrapping(foreground),
                };
                cells.set(idx, merged);
            }
            proof {
                assert(pts@.take(j as int + 1) =~= pts@.take(j as int).push(pts@[j as int]));
                assert forall|x: int, y: int|
                    #![trigger cell_at(seen@, w as int, x, y)]
                    #![trigger cell_at(cells@, w as int, x, y)]
                    0 <= x < w && 0 <= y < h implies (cell_at(seen@, w as int, x, y) == has_pixel(
                    pts@.take(j as int + 1),
                    x,
                    y,
                ) && cell_at(cells@, w as int, x, y) == (if has_pixel(pts@.take(j as int + 1), x, y) {
                    merge_value(alg, cell_at(orig, w as int, x, y), foreground)
                } else {
                    cell_at(orig, w as int, x, y)
                })) by {
                    lemma_row_major(w as int, h as int, x, y);
                    crate::scan::lemma_has_pixel_push(pts@.take(j as int), pts@[j as int], x, y);
                    let idx2 = y * (w as int) + x;
                    assert(cell_at(seen_before, w as int, x, y) == seen_before[idx2]);
                    assert(cell_at(cells_before, w as int, x, y) == cells_before[idx2]);
                    assert(cell_at(orig, w as int, x, y) == orig[idx2]);
                    if x == px as int && y == py as int {
                        assert(idx2 == idx as int);
                    } else {
                        if idx2 == idx as int {
                            lemma_row_major_unique(
                                w as int,
                                h as int,
                                px as int,
                                py as int,
                                x,
                                y,
                            );
                        }
                        assert(idx2 != idx as int);
                        assert(seen@[idx2] == seen_before[idx2]);
                        assert(cells@[idx2] == cells_before[idx2]);
                    }
                    assert(cell_at(seen@, w as int, x, y) == seen@[idx2]);
                    assert(cell_at(cells@, w as int, x, y) == cells@[idx2]);
                }
            }
            j += 1;
        }
        proof {
            assert(pts@.take(pts@.len() as int) =~= pts@);
        }
        let g = RasterGrid { width: w, height: h, cells };
        proof {
            assert forall|x: int, y: int| #![trigger g.at(x, y)]
                0 <= x < w && 0 <= y < h implies g.at(x, y) == (if has_pixel(pts@, x, y) {
                merge_value(alg, self.at(x, y), foreground)
            } else {
                self.at(x, y)
            }) by {
                assert(g.at(x, y) == cell_at(g.cells@, w as int, x, y));
            }
        }
        g
    }
}

} // verus!
