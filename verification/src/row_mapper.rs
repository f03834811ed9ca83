//! Mapping of match ranges and of the plain view onto fixed-width display
//! rows.
//!
//! A display row is a contiguous slice of the buffer, at most `width` bytes
//! wide; the final row of a match or of the plain view is clamped at the end
//! of the buffer, so a row never reads past it.
use vstd::prelude::*;
use vstd::slice::{slice_subrange, slice_to_vec};

verus! {

/// One fixed-width slice of the buffer prepared for one printed line.
pub struct DisplayRow {
    pub start_offset: u64,
    pub bytes: Vec<u8>,
}

/// The bytes of the row that starts at `start`: `width` bytes, clamped at
/// the end of the buffer.
pub open spec fn row_bytes(b: Seq<u8>, start: int, width: int) -> Seq<u8> {
    b.subrange(
        start,
        if start + width <= b.len() {
            start + width
        } else {
            b.len() as int
        },
    )
}

/// How many rows a match starting at `start` produces: one per `width`
/// bytes, at most `height`, none at or past the end of the buffer.
pub open spec fn row_count(blen: int, start: int, width: int, height: int) -> int
    decreases height,
{
    if height <= 0 || start < 0 || start >= blen {
        0
    } else {
        1 + row_count(blen, start + width, width, height - 1)
    }
}

/// How many rows the plain view starting at `start` produces: one per
/// `width` bytes up to the end of the buffer.
pub open spec fn window_count(blen: int, start: int, width: int) -> int
    decreases blen - start,
{
    if start < 0 || width <= 0 || start >= blen {
        0
    } else if start + width >= blen {
        1
    } else {
        1 + window_count(blen, start + width, width)
    }
}

/// `(y - 1) * w + w == y * w`.
proof fn lemma_mul_step(y: int, w: int)
    ensures
        (y - 1) * w + w == y * w,
{
    broadcast use vstd::arithmetic::mul::group_mul_properties;

}

/// A row count is never negative.
pub proof fn lemma_row_count_nonneg(blen: int, start: int, width: int, height: int)
    ensures
        row_count(blen, start, width, height) >= 0,
    decreases height,
{
    if !(height <= 0 || start < 0 || start >= blen) {
        lemma_row_count_nonneg(blen, start + width, width, height - 1);
    }
}

/// Every row that `row_count` counts starts inside the buffer: the `y`-th
/// row of a match beginning at `start` starts at `start + y * width`, which
/// lies before `blen`.
pub proof fn lemma_row_starts_in_buffer(blen: int, start: int, width: int, height: int, y: int)
    requires
        width >= 1,
        0 <= y < row_count(blen, start, width, height),
    ensures
        0 <= start,
        start + y * width < blen,
    decreases y,
{
    vstd::arithmetic::mul::lemma_mul_basics(width);
    if y > 0 {
        lemma_row_starts_in_buffer(blen, start + width, width, height - 1, y - 1);
        lemma_mul_step(y, width);
    }
}

/// The rows that show a match starting at `start`: `height` rows of `width`
/// bytes each, except that rows at or past the end of the buffer are not
/// produced and the final row is clamped to the remaining bytes.
pub fn rows_for_match(buffer: &Vec<u8>, start: usize, width: u16, height: u16) -> (r: Vec<
    DisplayRow,
>)
    requires
        width >= 1,
    ensures
        r@.len() == row_count(buffer@.len() as int, start as int, width as int, height as int),
        forall|y: int|
            0 <= y < r@.len() ==> (#[trigger] r@[y]).start_offset == start + y * (width as int),
        forall|y: int|
            0 <= y < r@.len() ==> (#[trigger] r@[y]).bytes@ == row_bytes(
                buffer@,
                start + y * (width as int),
                width as int,
            ),
        forall|y: int|
            0 <= y < r@.len() ==> (#[trigger] r@[y]).start_offset + r@[y].bytes@.len()
                <= buffer@.len(),
{
    let blen = buffer.len();
    let w = width as usize;
    let ghost wi = width as int;
    let mut r: Vec<DisplayRow> = Vec::new();
    let mut s: usize = start;
    let mut remaining: u16 = height;
    proof {
        vstd::arithmetic::mul::lemma_mul_basics(wi);
    }
    loop
        invariant_except_break
            s <= blen || r@.len() == 0,
            s as int == start + r@.len() * wi,
        invariant
            blen == buffer@.len(),
            w == width as int,
            wi == width as int,
            width >= 1,
            remaining as int == height - r@.len(),
            row_count(blen as int, start as int, wi, height as int) == r@.len() + row_count(
                blen as int,
                s as int,
                wi,
                remaining as int,
            ),
            forall|y: int|
                0 <= y < r@.len() ==> (#[trigger] r@[y]).start_offset == start + y * wi,
            forall|y: int|
                0 <= y < r@.len() ==> (#[trigger] r@[y]).bytes@ == row_bytes(
                    buffer@,
                    start + y * wi,
                    wi,
                ),
            forall|y: int|
                0 <= y < r@.len() ==> (#[trigger] r@[y]).start_offset + r@[y].bytes@.len()
                    <= buffer@.len(),
        ensures
            r@.len() == row_count(blen as int, start as int, wi, height as int),
        decreases remaining,
    {
        if remaining == 0 || s >= blen {
            assert(row_count(blen as int, s as int, wi, remaining as int) == 0);
            break ;
        }
        let rem_bytes = blen - s;
        let take = if rem_bytes < w {
            rem_bytes
        } else {
            w
        };
        let bytes = slice_to_vec(slice_subrange(buffer.as_slice(), s, s + take));
        let ghost y = r@.len() as int;
        r.push(DisplayRow { start_offset: s as u64, bytes });
        remaining = remaining - 1;
        proof {
            lemma_mul_step(y + 1, wi);
            assert(r@[y].bytes@ =~= row_bytes(buffer@, start + y * wi, wi));
        }
        if rem_bytes <= w {
            // the clamped final row: nothing follows it
            proof {
                assert(row_count(blen as int, s as int + wi, wi, remaining as int) == 0);
            }
            s = blen;
            proof {
                assert(row_count(blen as int, start as int, wi, height as int) == r@.len()
                    + row_count(blen as int, s as int, wi, remaining as int));
            }
            break ;
        } else {
            s = s + w;
        }
    }
    r
}

/// The rows of the plain view from `start` on: consecutive `width`-byte
/// windows, the final one clamped at the end of the buffer.
pub fn plain_windows(buffer: &Vec<u8>, start: usize, width: u16) -> (r: Vec<DisplayRow>)
    requires
        width >= 1,
    ensures
        r@.len() == window_count(buffer@.len() as int, start as int, width as int),
        forall|y: int|
            0 <= y < r@.len() ==> (#[trigger] r@[y]).start_offset == start + y * (width as int),
        forall|y: int|
            0 <= y < r@.len() ==> (#[trigger] r@[y]).bytes@ == row_bytes(
                buffer@,
                start + y * (width as int),
                width as int,
            ),
        forall|y: int|
            0 <= y < r@.len() ==> (#[trigger] r@[y]).start_offset + r@[y].bytes@.len()
                <= buffer@.len(),
{
    let blen = buffer.len();
    let w = width as usize;
    let ghost wi = width as int;
    let mut r: Vec<DisplayRow> = Vec::new();
    let mut s: usize = start;
    proof {
        vstd::arithmetic::mul::lemma_mul_basics(wi);
    }
    loop
        invariant_except_break
            s <= blen || r@.len() == 0,
            s as int == start + r@.len() * wi,
        invariant
            blen == buffer@.len(),
            w == width as int,
            wi == width as int,
            width >= 1,
            window_count(blen as int, start as int, wi) == r@.len() + window_count(
                blen as int,
                s as int,
                wi,
            ),
            forall|y: int|
                0 <= y < r@.len() ==> (#[trigger] r@[y]).start_offset == start + y * wi,
            forall|y: int|
                0 <= y < r@.len() ==> (#[trigger] r@[y]).bytes@ == row_bytes(
                    buffer@,
                    start + y * wi,
                    wi,
                ),
            forall|y: int|
                0 <= y < r@.len() ==> (#[trigger] r@[y]).start_offset + r@[y].bytes@.len()
                    <= buffer@.len(),
        ensures
            r@.len() == window_count(blen as int, start as int, wi),
        decreases blen - s,
    {
        if s >= blen {
            assert(window_count(blen as int, s as int, wi) == 0);
            break ;
        }
        let rem_bytes = blen - s;
        let take = if rem_bytes < w {
            rem_bytes
        } else {
            w
        };
        let bytes = slice_to_vec(slice_subrange(buffer.as_slice(), s, s + take));
        let ghost y = r@.len() as int;
        r.push(DisplayRow { start_offset: s as u64, bytes });
        proof {
            lemma_mul_step(y + 1, wi);
            assert(r@[y].bytes@ =~= row_bytes(buffer@, start + y * wi, wi));
        }
        if rem_bytes <= w {
            proof {
                assert(window_count(blen as int, s as int, wi) == 1);
            }
            s = blen;
            proof {
                assert(window_count(blen as int, start as int, wi) == r@.len() + window_count(
                    blen as int,
                    s as int,
                    wi,
                ));
            }
            break ;
        } else {
            s = s + w;
        }
    }
    r
}

} // verus!
