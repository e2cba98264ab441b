//! The coverage side of glyph SDF rasterization: which supersampled cells of
//! a glyph's texel grid count as inside, read from a FreeType coverage
//! bitmap.

use vstd::prelude::*;

verus! {

/// Supersampled coverage at or above this value counts as inside the glyph.
pub const EDT_COVERAGE_THRESHOLD: u8 = 128;

/// An 8-bit coverage bitmap of one glyph, rasterized at `supersample` times
/// the sampling point size.
///
/// `left` and `top` place the bitmap's first column and row in supersampled
/// pixels, exactly as FreeType reports `bitmap_left` and `bitmap_top`.
#[derive(Clone, Copy, Debug)]
pub struct CoverageBitmap<'a> {
    pub buffer: &'a [u8],
    pub width: usize,
    pub rows: usize,
    pub pitch: usize,
    pub left: i32,
    pub top: i32,
}

impl<'a> CoverageBitmap<'a> {
    /// Every row of the bitmap lies in the buffer: row `y` starts at
    /// `y * pitch` and holds `width` bytes.
    pub open spec fn wf(&self) -> bool {
        self.width == 0 || self.rows == 0 || (self.rows - 1) * self.pitch + self.width <= self.buffer@.len()
    }
}

/// Whether cell (`rx`, `ry`) of a grid whose top-left cell corner is at
/// (`origin_x`, `origin_y`) in supersampled pixels (+y up) is inside: the
/// bitmap pixel under it exists and its coverage reaches the threshold.
pub open spec fn cell_inside(coverage: CoverageBitmap, origin_x: int, origin_y: int, rx: int, ry: int) -> bool {
    let bx = origin_x - coverage.left + rx;
    let by = coverage.top - origin_y + ry;
    &&& coverage.width > 0
    &&& coverage.rows > 0
    &&& 0 <= bx < coverage.width
    &&& 0 <= by < coverage.rows
    &&& coverage.buffer@[by * coverage.pitch + bx] >= EDT_COVERAGE_THRESHOLD
}

/// Entry of cell (`x`, `y`) in a row-major mask `w` cells wide.
pub open spec fn cell_of(x: int, y: int, w: int) -> int {
    y * w + x
}

/// Thresholds the coverage bitmap onto the supersampled cells of a grid
/// `raster_width` cells wide and `raster_height` cells high, whose top-left
/// corner is at (`origin_x`, `origin_y`) in supersampled pixels. Cell `rx`
/// of row `ry` is entry `ry * raster_width + rx`.
pub fn coverage_mask(
    coverage: &CoverageBitmap,
    origin_x: i64,
    origin_y: i64,
    raster_width: usize,
    raster_height: usize,
) -> (inside: Vec<bool>)
    requires
        coverage.wf(),
        coverage.width <= 0x7fff_ffff_ffff_ffff,
        coverage.rows <= 0x7fff_ffff_ffff_ffff,
        raster_width * raster_height <= usize::MAX,
        -0x1000_0000_0000 <= origin_x <= 0x1000_0000_0000,
        -0x1000_0000_0000 <= origin_y <= 0x1000_0000_0000,
        raster_width <= 0x1000_0000_0000,
        raster_height <= 0x1000_0000_0000,
    ensures
        inside@.len() == raster_width * raster_height,
        forall|rx: int, ry: int|
            0 <= rx < raster_width && 0 <= ry < raster_height ==> inside@[cell_of(rx, ry, raster_width as int)] == cell_inside(
                *coverage,
                origin_x as int,
                origin_y as int,
                rx,
                ry,
            ),
{
    let total = raster_width * raster_height;
    let mut inside: Vec<bool> = Vec::new();
    let mut n: usize = 0;
    while n < total
        invariant
            n <= total,
            inside@.len() == n,
            forall|k: int| 0 <= k < n ==> !(#[trigger] inside@[k]),
        decreases total - n,
    {
        inside.push(false);
        n = n + 1;
    }
    if coverage.width == 0 || coverage.rows == 0 {
        proof {
            assert forall|rx: int, ry: int| 0 <= rx < raster_width && 0 <= ry < raster_height implies inside@[cell_of(
                rx,
                ry,
                raster_width as int,
            )] == cell_inside(*coverage, origin_x as int, origin_y as int, rx, ry) by {
                lemma_cell_index(rx, ry, raster_width as int, raster_height as int);
            }
        }
        return inside;
    }
    assert forall|rx: int, y: int| 0 <= rx < raster_width && 0 <= y < raster_height implies !inside@[cell_of(
        rx,
        y,
        raster_width as int,
    )] by {
        lemma_cell_index(rx, y, raster_width as int, raster_height as int);
    }
    let column_offset: i64 = origin_x - coverage.left as i64;
    let row_offset: i64 = coverage.top as i64 - origin_y;
    let mut ry: usize = 0;
    while ry < raster_height
        invariant
            ry <= raster_height,
            inside@.len() == total,
            total == raster_width * raster_height,
            coverage.wf(),
            coverage.width > 0,
            coverage.rows > 0,
            coverage.width <= 0x7fff_ffff_ffff_ffff,
            coverage.rows <= 0x7fff_ffff_ffff_ffff,
            column_offset == origin_x - coverage.left,
            row_offset == coverage.top - origin_y,
            raster_width <= 0x1000_0000_0000,
            raster_height <= 0x1000_0000_0000,
            -0x1000_0000_0000 <= origin_x <= 0x1000_0000_0000,
            -0x1000_0000_0000 <= origin_y <= 0x1000_0000_0000,
            forall|rx: int, y: int|
                0 <= rx < raster_width && 0 <= y < ry ==> inside@[cell_of(rx, y, raster_width as int)] == cell_inside(
                    *coverage,
                    origin_x as int,
                    origin_y as int,
                    rx,
                    y,
                ),
            forall|rx: int, y: int|
                0 <= rx < raster_width && ry <= y < raster_height ==> !inside@[cell_of(rx, y, raster_width as int)],
        decreases raster_height - ry,
    {
        let by: i64 = row_offset + ry as i64;
        if by >= 0 && by < coverage.rows as i64 {
            let mut rx: usize = 0;
            while rx < raster_width
                invariant
                    rx <= raster_width,
                    ry < raster_height,
                    inside@.len() == total,
                    total == raster_width * raster_height,
                    coverage.wf(),
                    coverage.width > 0,
                    coverage.width <= 0x7fff_ffff_ffff_ffff,
                    0 <= by < coverage.rows,
                    by == row_offset + ry,
                    column_offset == origin_x - coverage.left,
                    row_offset == coverage.top - origin_y,
                    raster_width <= 0x1000_0000_0000,
                    -0x1000_0000_0000 <= origin_x <= 0x1000_0000_0000,
                    forall|x: int, y: int|
                        0 <= x < raster_width && 0 <= y < ry ==> inside@[cell_of(x, y, raster_width as int)] == cell_inside(
                            *coverage,
                            origin_x as int,
                            origin_y as int,
                            x,
                            y,
                        ),
                    forall|x: int| 0 <= x < rx ==> inside@[cell_of(x, ry as int, raster_width as int)] == cell_inside(
                        *coverage,
                        origin_x as int,
                        origin_y as int,
                        x,
                        ry as int,
                    ),
                    forall|x: int, y: int|
                        0 <= x < raster_width && ry < y < raster_height ==> !inside@[cell_of(x, y, raster_width as int)],
                    forall|x: int| rx <= x < raster_width ==> !inside@[cell_of(x, ry as int, raster_width as int)],
                decreases raster_width - rx,
            {
                let bx: i64 = column_offset + rx as i64;
                proof {
                    lemma_cell_index(rx as int, ry as int, raster_width as int, raster_height as int);
                }
                let cell = ry * raster_width + rx;
                if bx >= 0 && bx < coverage.width as i64 {
                    proof {
                        assert((by as int) * (coverage.pitch as int) + (bx as int) < coverage.buffer@.len()) by (nonlinear_arith)
                            requires
                                0 <= by < coverage.rows,
                                0 <= bx < coverage.width,
                                (coverage.rows - 1) * coverage.pitch + coverage.width <= coverage.buffer@.len(),
                        ;
                    }
                    let buffer_len = coverage.buffer.len();
                    assert((by as int) * (coverage.pitch as int) <= buffer_len);
                    let position = by as usize * coverage.pitch + bx as usize;
                    let value = coverage.buffer[position] >= EDT_COVERAGE_THRESHOLD;
                    inside.set(cell, value);
                    assert(inside@[cell_of(rx as int, ry as int, raster_width as int)] == cell_inside(
                        *coverage,
                        origin_x as int,
                        origin_y as int,
                        rx as int,
                        ry as int,
                    ));
                } else {
                    inside.set(cell, false);
                    assert(inside@[cell_of(rx as int, ry as int, raster_width as int)] == cell_inside(
                        *coverage,
                        origin_x as int,
                        origin_y as int,
                        rx as int,
                        ry as int,
                    ));
                }
                proof {
                    assert forall|x: int, y: int| 0 <= x < raster_width && 0 <= y < ry implies inside@[cell_of(
                        x,
                        y,
                        raster_width as int,
                    )] == cell_inside(*coverage, origin_x as int, origin_y as int, x, y) by {
                        lemma_cell_distinct(x, y, rx as int, ry as int, raster_width as int);
                        lemma_cell_index(x, y, raster_width as int, raster_height as int);
                    }
                    assert forall|x: int, y: int| 0 <= x < raster_width && ry < y < raster_height implies !inside@[cell_of(
                        x,
                        y,
                        raster_width as int,
                    )] by {
                        lemma_cell_distinct(x, y, rx as int, ry as int, raster_width as int);
                        lemma_cell_index(x, y, raster_width as int, raster_height as int);
                    }
                    assert forall|x: int| 0 <= x < rx implies inside@[cell_of(x, ry as int, raster_width as int)]
                        == cell_inside(*coverage, origin_x as int, origin_y as int, x, ry as int) by {
                        lemma_cell_distinct(x, ry as int, rx as int, ry as int, raster_width as int);
                        lemma_cell_index(x, ry as int, raster_width as int, raster_height as int);
                    }
                    assert forall|x: int| rx < x < raster_width implies !inside@[cell_of(x, ry as int, raster_width as int)] by {
                        lemma_cell_distinct(x, ry as int, rx as int, ry as int, raster_width as int);
                        lemma_cell_index(x, ry as int, raster_width as int, raster_height as int);
                    }
                }
                rx = rx + 1;
            }
        } else {
            proof {
                assert forall|x: int| 0 <= x < raster_width implies inside@[cell_of(x, ry as int, raster_width as int)] == cell_inside(
                    *coverage,
                    origin_x as int,
                    origin_y as int,
                    x,
                    ry as int,
                ) by {
                    lemma_cell_index(x, ry as int, raster_width as int, raster_height as int);
                    assert(!inside@[cell_of(x, ry as int, raster_width as int)]);
                    assert(!cell_inside(*coverage, origin_x as int, origin_y as int, x, ry as int));
                }
            }
        }
        ry = ry + 1;
    }
    inside
}

proof fn lemma_cell_index(x: int, y: int, w: int, h: int)
    requires
        0 <= x < w,
        0 <= y < h,
    ensures
        0 <= cell_of(x, y, w) < w * h,
{
    assert(0 <= y * w + x < w * h) by (nonlinear_arith)
        requires
            0 <= x < w,
            0 <= y < h,
    ;
}

proof fn lemma_cell_distinct(x: int, y: int, a: int, b: int, w: int)
    requires
        0 <= x < w,
        0 <= a < w,
        0 <= y,
        0 <= b,
        (x, y) != (a, b),
    ensures
        cell_of(x, y, w) != cell_of(a, b, w),
{
    if y == b {
        assert(x != a);
    } else if y < b {
        assert(y * w + x < b * w + a) by (nonlinear_arith)
            requires
                y < b,
                0 <= x < w,
                0 <= a,
        ;
    } else {
        assert(b * w + a < y * w + x) by (nonlinear_arith)
            requires
                b < y,
                0 <= a < w,
                0 <= x,
        ;
    }
}

} // verus!
