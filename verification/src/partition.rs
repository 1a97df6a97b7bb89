//! Partition of the image into disjoint horizontal bands, one per worker.
//!
//! The renderer splits the output buffer into contiguous row bands before
//! any worker starts, so that concurrent band renderers write disjoint
//! byte ranges and need no locking. Everything here is integer geometry:
//! the bands tile the rows exactly, with no gap and no overlap.

use vstd::prelude::*;

verus! {

/// One horizontal band of the image: `rows` consecutive rows, the first
/// of them `start_row`, counted in full-image coordinates.
#[derive(Clone, Copy, PartialEq, Eq, Structural, Debug)]
pub struct RowBand {
    pub start_row: usize,
    pub rows: usize,
}

/// The number of rows given to each band but possibly the last:
/// the ceiling of `height / workers`.
pub open spec fn spec_rows_per_band(height: int, workers: int) -> int {
    (height + workers - 1) / workers
}

/// Rows per band for `workers` bands over `height` rows, rounding up so
/// that `workers` bands always suffice.
pub fn rows_per_band(height: usize, workers: usize) -> (r: usize)
    requires
        height > 0,
        workers > 0,
    ensures
        r == spec_rows_per_band(height as int, workers as int),
        r > 0,
        r * workers >= height,
        r <= height,
{
    let r = (height - 1) / workers + 1;
    proof {
        let h = height as int;
        let w = workers as int;
        vstd::arithmetic::div_mod::lemma_div_plus_one(h - 1, w);
        assert(r == spec_rows_per_band(h, w));
        vstd::arithmetic::div_mod::lemma_fundamental_div_mod(h - 1, w);
        assert(((h - 1) / w + 1) * w >= h) by (nonlinear_arith)
            requires
                w > 0,
                h - 1 == w * ((h - 1) / w) + (h - 1) % w,
                (h - 1) % w < w,
        ;
        assert((h - 1) / w + 1 <= h) by (nonlinear_arith)
            requires
                w > 0,
                h > 0,
                h - 1 == w * ((h - 1) / w) + (h - 1) % w,
                (h - 1) % w >= 0,
        ;
    }
    r
}

/// The bands tile rows `lo .. hi` contiguously: there is at least one
/// band, every band is nonempty, the first starts at `lo`, each further
/// band starts where the one before it ends, and the last ends at `hi`.
pub open spec fn tiles_rows(bands: Seq<RowBand>, lo: int, hi: int) -> bool {
    &&& bands.len() > 0
    &&& bands[0].start_row == lo
    &&& (forall|i: int| 0 <= i < bands.len() ==> (#[trigger] bands[i]).rows > 0)
    &&& (forall|i: int|
        0 <= i < bands.len() - 1 ==> (#[trigger] bands[i + 1]).start_row == bands[i].start_row
            + bands[i].rows)
    &&& bands[bands.len() - 1].start_row + bands[bands.len() - 1].rows == hi
}

/// The bands partition the whole image: they tile rows `0 .. height`.
pub open spec fn is_row_partition(bands: Seq<RowBand>, height: int) -> bool {
    tiles_rows(bands, 0, height)
}

/// Splits `height` rows into at most `workers` disjoint contiguous bands:
/// every band but the last holds exactly `rows_per_band` rows, and the
/// last holds the rows that remain, never more than `rows_per_band`.
pub fn partition_rows(height: usize, workers: usize) -> (bands: Vec<RowBand>)
    requires
        height > 0,
        workers > 0,
    ensures
        is_row_partition(bands@, height as int),
        bands@.len() <= workers,
        forall|i: int|
            0 <= i < bands@.len() ==> (#[trigger] bands@[i]).start_row == i * spec_rows_per_band(
                height as int,
                workers as int,
            ),
        forall|i: int|
            0 <= i < bands@.len() ==> (#[trigger] bands@[i]).rows <= spec_rows_per_band(
                height as int,
                workers as int,
            ),
        forall|i: int|
            0 <= i < bands@.len() - 1 ==> (#[trigger] bands@[i]).rows == spec_rows_per_band(
                height as int,
                workers as int,
            ),
{
    let rpb = rows_per_band(height, workers);
    let ghost r = rpb as int;
    let mut bands: Vec<RowBand> = Vec::new();
    let mut row: usize = 0;
    while row < height
        invariant
            height > 0,
            workers > 0,
            r == rpb,
            rpb == spec_rows_per_band(height as int, workers as int),
            rpb > 0,
            rpb * workers >= height,
            row <= height,
            row < height ==> row == bands@.len() * r,
            forall|i: int| 0 <= i < bands@.len() ==> (#[trigger] bands@[i]).start_row == i * r,
            forall|i: int| 0 <= i < bands@.len() ==> 0 < (#[trigger] bands@[i]).rows <= r,
            forall|i: int| 0 <= i < bands@.len() - 1 ==> (#[trigger] bands@[i]).rows == r,
            bands@.len() > 0 ==> bands@[bands@.len() - 1].start_row + bands@[bands@.len()
                - 1].rows == row,
            bands@.len() == 0 ==> row == 0,
        decreases height - row,
    {
        let ghost len0 = bands@.len() as int;
        let remaining = height - row;
        let rows = if remaining < rpb {
            remaining
        } else {
            rpb
        };
        bands.push(RowBand { start_row: row, rows });
        proof {
            assert(row == len0 * r);
            assert((len0 + 1) * r == len0 * r + r) by (nonlinear_arith);
            if len0 > 0 {
                // the band that was last so far ends at `row`, so it is full
                assert(bands@[len0 - 1].start_row == (len0 - 1) * r);
                assert(len0 * r - (len0 - 1) * r == r) by (nonlinear_arith);
                assert(bands@[len0 - 1].rows == r);
            }
        }
        row = row + rows;
    }
    proof {
        let h = height as int;
        let w = workers as int;
        let n = bands@.len() as int;
        assert(n > 0);
        assert(bands@[0].start_row == 0 * r);
        assert(forall|i: int|
            0 <= i < n - 1 ==> (#[trigger] bands@[i + 1]).start_row == bands@[i].start_row
                + bands@[i].rows) by {
            assert forall|i: int| 0 <= i < n - 1 implies (#[trigger] bands@[i + 1]).start_row
                == bands@[i].start_row + bands@[i].rows by {
                assert(bands@[i].start_row == i * r);
                assert(bands@[i + 1].start_row == (i + 1) * r);
                assert(bands@[i].rows == r);
                assert((i + 1) * r == i * r + r) by (nonlinear_arith);
            }
        }
        // at most `workers` bands: the last band starts below `height`,
        // and `workers` full bands would already reach it
        let last = bands@[n - 1];
        assert(last.start_row == (n - 1) * r);
        assert(last.start_row < h);
        assert(n <= w) by (nonlinear_arith)
            requires
                (n - 1) * r < h,
                h <= r * w,
                r > 0,
                n > 0,
                w > 0,
        ;
    }
    bands
}

/// Sum of the row counts of the bands.
pub open spec fn sum_rows(bands: Seq<RowBand>) -> int
    decreases bands.len(),
{
    if bands.len() == 0 {
        0
    } else {
        bands[0].rows + sum_rows(bands.drop_first())
    }
}

/// Band `b` holds image row `row`.
pub open spec fn band_holds_row(b: RowBand, row: int) -> bool {
    b.start_row <= row < b.start_row + b.rows
}

/// In a tiling, an earlier band ends no later than a later band starts.
proof fn lemma_band_order(bands: Seq<RowBand>, lo: int, hi: int, i: int, j: int)
    requires
        tiles_rows(bands, lo, hi),
        0 <= i < j < bands.len(),
    ensures
        bands[i].start_row + bands[i].rows <= bands[j].start_row,
    decreases j - i,
{
    // contiguity at j - 1, in the shape of its trigger
    assert(bands[j - 1 + 1].start_row == bands[j - 1].start_row + bands[j - 1].rows);
    if j > i + 1 {
        lemma_band_order(bands, lo, hi, i, j - 1);
    }
}

/// In a tiling of `lo .. hi`, every row of that range lies in some band.
proof fn lemma_row_in_some_band(bands: Seq<RowBand>, lo: int, hi: int, row: int)
    requires
        tiles_rows(bands, lo, hi),
        lo <= row < hi,
    ensures
        exists|i: int| 0 <= i < bands.len() && band_holds_row(#[trigger] bands[i], row),
    decreases bands.len(),
{
    let n = bands.len() as int;
    let last = bands[n - 1];
    if last.start_row <= row {
        assert(band_holds_row(bands[n - 1], row));
    } else {
        // the last band starts above `row`, so the bands before it are a
        // tiling of `lo .. last.start_row` that still holds `row`
        assert(n >= 2);
        let prefix = bands.subrange(0, n - 1);
        assert(bands[n - 2 + 1].start_row == bands[n - 2].start_row + bands[n - 2].rows);
        assert forall|i: int| 0 <= i < n - 1 implies #[trigger] prefix[i] == bands[i] by {}
        assert(tiles_rows(prefix, lo, last.start_row as int));
        lemma_row_in_some_band(prefix, lo, last.start_row as int, row);
        let i = choose|i: int| 0 <= i < prefix.len() && band_holds_row(#[trigger] prefix[i], row);
        assert(band_holds_row(bands[i], row));
    }
}

/// In a tiling of `lo .. hi`, the row counts add up to the whole range.
proof fn lemma_sum_rows_tiles(bands: Seq<RowBand>, lo: int, hi: int)
    requires
        tiles_rows(bands, lo, hi),
    ensures
        sum_rows(bands) == hi - lo,
    decreases bands.len(),
{
    let n = bands.len() as int;
    let rest = bands.drop_first();
    if n == 1 {
        assert(sum_rows(rest) == 0);
    } else {
        assert(bands[0int + 1].start_row == bands[0int].start_row + bands[0int].rows);
        assert forall|i: int| 0 <= i < n - 1 implies #[trigger] rest[i] == bands[i + 1] by {}
        assert(rest[n - 2] == bands[n - 1]);
        assert(tiles_rows(rest, lo + bands[0].rows, hi));
        lemma_sum_rows_tiles(rest, lo + bands[0].rows, hi);
    }
}

/// Some band of the sequence holds image row `row`.
pub open spec fn some_band_holds_row(bands: Seq<RowBand>, row: int) -> bool {
    exists|i: int| 0 <= i < bands.len() && band_holds_row(#[trigger] bands[i], row)
}

/// The partition invariant over rows: in a partition of the image rows,
/// every row below `height` lies in exactly one band, and the bands' row
/// counts sum to exactly the image height.
pub proof fn lemma_partition_rows_exact(bands: Seq<RowBand>, height: int)
    requires
        is_row_partition(bands, height),
    ensures
        forall|row: int| 0 <= row < height ==> #[trigger] some_band_holds_row(bands, row),
        forall|i: int, j: int, row: int|
            #![trigger band_holds_row(bands[i], row), band_holds_row(bands[j], row)]
            0 <= i < bands.len() && 0 <= j < bands.len() && i != j && band_holds_row(bands[i], row)
                ==> !band_holds_row(bands[j], row),
        sum_rows(bands) == height,
{
    assert forall|row: int| 0 <= row < height implies #[trigger] some_band_holds_row(
        bands,
        row,
    ) by {
        lemma_row_in_some_band(bands, 0, height, row);
    }
    assert forall|i: int, j: int, row: int|
        0 <= i < bands.len() && 0 <= j < bands.len() && i != j && band_holds_row(
            bands[i],
            row,
        ) implies !band_holds_row(bands[j], row) by {
        if i < j {
            lemma_band_order(bands, 0, height, i, j);
        } else {
            lemma_band_order(bands, 0, height, j, i);
        }
    }
    lemma_sum_rows_tiles(bands, 0, height);
}

/// First byte of the band in the row-major buffer of a `width`-wide image.
pub open spec fn band_first_index(b: RowBand, width: int) -> int {
    b.start_row * width
}

/// One past the last byte of the band in the row-major buffer.
pub open spec fn band_end_index(b: RowBand, width: int) -> int {
    (b.start_row + b.rows) * width
}

/// Band `b` holds the buffer byte at index `k`.
pub open spec fn band_holds_index(b: RowBand, width: int, k: int) -> bool {
    band_first_index(b, width) <= k < band_end_index(b, width)
}

/// Some band of the sequence holds the buffer byte at index `k`.
pub open spec fn some_band_holds_index(bands: Seq<RowBand>, width: int, k: int) -> bool {
    exists|i: int| 0 <= i < bands.len() && band_holds_index(#[trigger] bands[i], width, k)
}

/// The partition invariant over the byte buffer: the bands' byte ranges
/// cover `0 .. width * height` exactly, with no gap and no overlap, so
/// concurrent band renderers never write the same byte.
pub proof fn lemma_partition_covers_buffer(bands: Seq<RowBand>, width: int, height: int)
    requires
        width > 0,
        is_row_partition(bands, height),
    ensures
        forall|k: int|
            0 <= k < width * height ==> #[trigger] some_band_holds_index(bands, width, k),
        forall|i: int, j: int, k: int|
            #![trigger band_holds_index(bands[i], width, k), band_holds_index(bands[j], width, k)]
            0 <= i < bands.len() && 0 <= j < bands.len() && i != j && band_holds_index(
                bands[i],
                width,
                k,
            ) ==> !band_holds_index(bands[j], width, k),
{
    assert forall|k: int| 0 <= k < width * height implies #[trigger] some_band_holds_index(
        bands,
        width,
        k,
    ) by {
        let row = k / width;
        vstd::arithmetic::div_mod::lemma_multiply_divide_lt(k, width, height);
        vstd::arithmetic::div_mod::lemma_fundamental_div_mod(k, width);
        assert(0 <= row < height);
        lemma_row_in_some_band(bands, 0, height, row);
        let i = choose|i: int| 0 <= i < bands.len() && band_holds_row(#[trigger] bands[i], row);
        let b = bands[i];
        assert(band_holds_index(b, width, k)) by (nonlinear_arith)
            requires
                width > 0,
                b.start_row <= row < b.start_row + b.rows,
                k == width * row + k % width,
                0 <= k % width < width,
                band_first_index(b, width) == b.start_row * width,
                band_end_index(b, width) == (b.start_row + b.rows) * width,
                band_holds_index(b, width, k) == (band_first_index(b, width) <= k < band_end_index(
                    b,
                    width,
                )),
        ;
    }
    assert forall|i: int, j: int, k: int|
        0 <= i < bands.len() && 0 <= j < bands.len() && i != j && band_holds_index(
            bands[i],
            width,
            k,
        ) implies !band_holds_index(bands[j], width, k) by {
        let (lower, upper) = if i < j {
            (i, j)
        } else {
            (j, i)
        };
        lemma_band_order(bands, 0, height, lower, upper);
        let a = bands[lower];
        let c = bands[upper];
        assert(band_end_index(a, width) <= band_first_index(c, width)) by (nonlinear_arith)
            requires
                width > 0,
                a.start_row + a.rows <= c.start_row,
                band_end_index(a, width) == (a.start_row + a.rows) * width,
                band_first_index(c, width) == c.start_row * width,
        ;
    }
}

/// Connects a band renderer's local coordinates to the full image: the
/// byte a band renderer writes for its local pixel `(column, local_row)`
/// is the full-buffer byte of the global pixel at the same column, in row
/// `start_row + local_row`, and that byte lies inside the band's own
/// range. Each global pixel is therefore written at the same index
/// whether the image is rendered in parallel bands or in one pass.
pub proof fn lemma_band_local_index_is_global(b: RowBand, width: int, column: int, local_row: int)
    requires
        width > 0,
        0 <= column < width,
        0 <= local_row < b.rows,
    ensures
        band_first_index(b, width) + (local_row * width + column) == (b.start_row + local_row)
            * width + column,
        band_holds_index(b, width, band_first_index(b, width) + (local_row * width + column)),
{
    assert(b.start_row * width + (local_row * width + column) == (b.start_row + local_row) * width
        + column) by (nonlinear_arith);
    assert(0 <= local_row * width + column < b.rows * width) by (nonlinear_arith)
        requires
            width > 0,
            0 <= column < width,
            0 <= local_row < b.rows,
    ;
    assert((b.start_row + b.rows) * width == b.start_row * width + b.rows * width)
        by (nonlinear_arith);
}

} // verus!
