//! Geometry of an RGBA8 pixel buffer: row-major, four bytes per pixel, no padding.

use vstd::prelude::*;
use vstd::arithmetic::div_mod::lemma_fundamental_div_mod;
use vstd::arithmetic::div_mod::lemma_fundamental_div_mod_converse;
use vstd::arithmetic::mul::lemma_mul_inequality;

verus! {

/// Bytes an image of the given dimensions occupies.
pub open spec fn image_len(width: nat, height: nat) -> nat {
    width * height * 4
}

/// Position of channel `ch` of the pixel in column `x` of row `y`.
pub open spec fn offset(x: int, y: int, ch: int, width: nat) -> int {
    (y * width + x) * 4 + ch
}

/// Row of the pixel that byte `i` belongs to.
pub open spec fn row_of(i: int, width: nat) -> int {
    (i / 4) / (width as int)
}

/// Column of the pixel that byte `i` belongs to.
pub open spec fn col_of(i: int, width: nat) -> int {
    (i / 4) % (width as int)
}

/// Channel that byte `i` holds: 0 red, 1 green, 2 blue, 3 alpha.
pub open spec fn channel_of(i: int) -> int {
    i % 4
}

/// A buffer matches its dimensions when it holds exactly `width * height * 4` bytes.
pub open spec fn fits(buf: Seq<u8>, width: nat, height: nat) -> bool {
    buf.len() == image_len(width, height)
}

/// Row, column and channel of a position recover the coordinates it was made from.
pub proof fn lemma_coords_of_offset(x: int, y: int, ch: int, width: nat)
    requires
        0 <= x < width,
        0 <= y,
        0 <= ch < 4,
    ensures
        row_of(offset(x, y, ch, width), width) == y,
        col_of(offset(x, y, ch, width), width) == x,
        channel_of(offset(x, y, ch, width)) == ch,
        0 <= offset(x, y, ch, width),
{
    let p = y * width + x;
    assert(0 <= y * width) by (nonlinear_arith)
        requires
            0 <= y,
            0 <= width,
    ;
    lemma_fundamental_div_mod_converse(p, width as int, y, x);
}

/// Every position is the offset of its own row, column and channel.
pub proof fn lemma_offset_of_coords(i: int, width: nat)
    requires
        0 <= i,
        0 < width,
    ensures
        offset(col_of(i, width), row_of(i, width), channel_of(i), width) == i,
        0 <= row_of(i, width),
        0 <= col_of(i, width) < width,
        0 <= channel_of(i) < 4,
{
    let p = i / 4;
    let w = width as int;
    lemma_fundamental_div_mod(p, w);
    assert(w * (p / w) == (p / w) * w) by (nonlinear_arith);
    assert(0 <= p / w) by (nonlinear_arith)
        requires
            0 <= p,
            0 < w,
    ;
}

/// Positions inside the image are exactly those whose row is below `height`.
pub proof fn lemma_row_in_image(i: int, width: nat, height: nat)
    requires
        0 <= i,
        0 < width,
    ensures
        i < image_len(width, height) <==> row_of(i, width) < height,
{
    lemma_offset_of_coords(i, width);
    let r = row_of(i, width);
    let c = col_of(i, width);
    if r < height {
        lemma_mul_inequality(r + 1, height as int, width as int);
        assert((r + 1) * width == r * width + width) by (nonlinear_arith);
        assert(width * height * 4 == (height * width) * 4) by (nonlinear_arith);
    } else {
        lemma_mul_inequality(height as int, r, width as int);
        assert(width * height * 4 == (height * width) * 4) by (nonlinear_arith);
    }
}

/// Coordinates inside the image give a position inside the buffer.
pub proof fn lemma_offset_in_image(x: int, y: int, ch: int, width: nat, height: nat)
    requires
        0 <= x < width,
        0 <= y < height,
        0 <= ch < 4,
    ensures
        0 <= offset(x, y, ch, width) < image_len(width, height),
{
    lemma_coords_of_offset(x, y, ch, width);
    lemma_row_in_image(offset(x, y, ch, width), width, height);
}

/// An image is as long as its rows together: it is empty where it has no
/// row or no column, and holds `height` rows of `width * 4` bytes otherwise.
pub proof fn lemma_image_rows(width: nat, height: nat)
    ensures
        width == 0 || height == 0 ==> image_len(width, height) == 0,
        image_len(width, height) == height * (width * 4),
        height >= 1 ==> width * 4 <= image_len(width, height),
{
    assert(width * height * 4 == height * (width * 4)) by (nonlinear_arith);
    if width == 0 || height == 0 {
        assert(width * height * 4 == 0) by (nonlinear_arith)
            requires
                width == 0 || height == 0,
        ;
    }
    if height >= 1 {
        assert(width * 4 <= height * (width * 4)) by (nonlinear_arith)
            requires
                height >= 1,
        ;
    }
}

/// `width * height * 4`, or `None` where that does not fit in `usize`.
pub fn buffer_len(width: usize, height: usize) -> (len: Option<usize>)
    ensures
        len == if image_len(width as nat, height as nat) <= usize::MAX {
            Some(image_len(width as nat, height as nat) as usize)
        } else {
            None::<usize>
        },
{
    match width.checked_mul(height) {
        Some(pixels) => pixels.checked_mul(4),
        None => {
            assert(width * height * 4 >= width * height) by (nonlinear_arith);
            None
        },
    }
}

/// Exchanges the `n` bytes at `a` with the `n` bytes at `b`.
pub(crate) fn swap_ranges(buf: &mut [u8], a: usize, b: usize, n: usize)
    requires
        a + n <= b,
        b + n <= old(buf)@.len(),
    ensures
        final(buf)@.len() == old(buf)@.len(),
        forall|i: int|
            0 <= i < old(buf)@.len() ==> #[trigger] final(buf)@[i] == if a <= i < a + n {
                old(buf)@[i - a + b]
            } else if b <= i < b + n {
                old(buf)@[i - b + a]
            } else {
                old(buf)@[i]
            },
{
    let mut k: usize = 0;
    while k < n
        invariant
            k <= n,
            a + n <= b,
            b + n <= buf@.len(),
            buf@.len() == old(buf)@.len(),
            forall|i: int|
                0 <= i < buf@.len() ==> #[trigger] buf@[i] == if a <= i < a + k {
                    old(buf)@[i - a + b]
                } else if b <= i < b + k {
                    old(buf)@[i - b + a]
                } else {
                    old(buf)@[i]
                },
        decreases n - k,
    {
        let first = buf[a + k];
        let second = buf[b + k];
        buf[a + k] = second;
        buf[b + k] = first;
        k = k + 1;
    }
}

} // verus!
