//! FreeType glyphs for uGUI text layout: the character size glyphs are
//! rendered at, and the coverage read out of a rendered bitmap.

use vstd::prelude::*;

verus! {

/// Resolution of the character size, in dots per inch on both axes.
pub const DPI: u32 = 72;

/// Character height in 26.6 fixed point for glyphs of `pixel_size` pixels.
pub fn char_height_26_6(pixel_size: u32) -> (r: i64)
    ensures
        r == pixel_size as int * 64,
{
    pixel_size as i64 * 64
}

/// The stored bitmap row that holds row `row` from the top: a negative pitch
/// stores the bottom row first.
pub open spec fn stored_row(row: int, rows: int, pitch: int) -> int {
    if pitch < 0 {
        rows - 1 - row
    } else {
        row
    }
}

/// Where row `row` from the top starts in the buffer: rows lie `|pitch|`
/// bytes apart.
pub open spec fn row_start(row: int, rows: int, pitch: int) -> int {
    stored_row(row, rows, pitch) * if pitch < 0 {
        -pitch
    } else {
        pitch
    }
}

/// The first `k` rows of `width` bytes lie within a buffer `len` bytes long.
pub open spec fn rows_fit(len: int, width: int, rows: int, pitch: int, k: int) -> bool {
    forall|r: int| 0 <= r < k ==> #[trigger] row_start(r, rows, pitch) + width <= len
}

/// The first `k` rows of `width` bytes from the top, one after another.
pub open spec fn coverage_rows(buffer: Seq<u8>, width: int, rows: int, pitch: int, k: int) -> Seq<u8>
    decreases k,
{
    if k <= 0 {
        Seq::empty()
    } else {
        coverage_rows(buffer, width, rows, pitch, k - 1) + buffer.subrange(
            row_start(k - 1, rows, pitch),
            row_start(k - 1, rows, pitch) + width,
        )
    }
}

/// The coverage of a rendered glyph bitmap, top row first: `rows` rows of
/// `width` bytes, read from `buffer` whose rows lie `|pitch|` bytes apart,
/// the bottom row stored first when `pitch` is negative. `None` when the
/// buffer is too short to hold them.
pub fn glyph_coverage(buffer: &[u8], width: usize, rows: usize, pitch: i32) -> (r: Option<Vec<u8>>)
    ensures
        match r {
            Some(coverage) => rows_fit(buffer@.len() as int, width as int, rows as int, pitch as int, rows as int)
                && coverage@ == coverage_rows(buffer@, width as int, rows as int, pitch as int, rows as int),
            None => !rows_fit(buffer@.len() as int, width as int, rows as int, pitch as int, rows as int),
        },
{
    let stride: usize = if pitch < 0 {
        (-(pitch as i64)) as usize
    } else {
        pitch as usize
    };
    let mut coverage: Vec<u8> = Vec::new();
    let mut row: usize = 0;
    while row < rows
        invariant
            row <= rows,
            stride == if pitch < 0 {
                -(pitch as int)
            } else {
                pitch as int
            },
            rows_fit(buffer@.len() as int, width as int, rows as int, pitch as int, row as int),
            coverage@ == coverage_rows(buffer@, width as int, rows as int, pitch as int, row as int),
        decreases rows - row,
    {
        let stored: usize = if pitch < 0 {
            rows - 1 - row
        } else {
            row
        };
        assert(row_start(row as int, rows as int, pitch as int) == stored as int * stride as int);
        assert(buffer@.len() == buffer.len());
        let start = match stored.checked_mul(stride) {
            Some(start) => start,
            None => {
                assert(row_start(row as int, rows as int, pitch as int) + width > buffer@.len());
                return None;
            },
        };
        let end = match start.checked_add(width) {
            Some(end) => end,
            None => {
                assert(row_start(row as int, rows as int, pitch as int) + width > buffer@.len());
                return None;
            },
        };
        if end > buffer.len() {
            assert(row_start(row as int, rows as int, pitch as int) + width > buffer@.len());
            return None;
        }
        let ghost before = coverage@;
        let mut i: usize = start;
        while i < end
            invariant
                start <= i <= end,
                end <= buffer@.len(),
                coverage@ == before + buffer@.subrange(start as int, i as int),
            decreases end - i,
        {
            coverage.push(buffer[i]);
            i = i + 1;
            assert(coverage@ =~= before + buffer@.subrange(start as int, i as int));
        }
        assert(row_start(row as int, rows as int, pitch as int) == start);
        row = row + 1;
    }
    Some(coverage)
}

} // verus!
