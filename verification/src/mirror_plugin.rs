//! The mirror filter: turns an image upside down, left to right, or both.

use vstd::prelude::*;
use crate::abi::FilterStatus;
use crate::pixel_buffer::{
    buffer_len, channel_of, col_of, fits, image_len, lemma_coords_of_offset, lemma_image_rows,
    lemma_offset_in_image, lemma_offset_of_coords, lemma_row_in_image, offset, row_of,
    swap_ranges,
};

verus! {

/// What the mirror filter is asked to do.
#[derive(Clone, Copy, Debug, PartialEq, Eq, Structural)]
pub struct Params {
    /// Exchange the rows top to bottom.
    pub horizontal: bool,
    /// Exchange the pixels of each row left to right.
    pub vertical: bool,
}

impl Default for Params {
    /// The request that changes nothing.
    fn default() -> (p: Params)
        ensures
            p == (Params { horizontal: false, vertical: false }),
    {
        Params { horizontal: false, vertical: false }
    }
}

/// Where byte `i` of the result comes from when rows are exchanged top to bottom.
pub open spec fn flip_source(i: int, width: nat, height: nat) -> int {
    offset(col_of(i, width), height - 1 - row_of(i, width), channel_of(i), width)
}

/// Where byte `i` of the result comes from when each row is reversed pixel by pixel.
pub open spec fn mirror_source(i: int, width: nat) -> int {
    offset(width - 1 - col_of(i, width), row_of(i, width), channel_of(i), width)
}

/// The image with row `y` and row `height - 1 - y` exchanged, for every `y`.
/// A buffer that does not fit the dimensions stays as it is.
pub open spec fn flipped(buf: Seq<u8>, width: nat, height: nat) -> Seq<u8> {
    if fits(buf, width, height) {
        Seq::new(buf.len(), |i: int| buf[flip_source(i, width, height)])
    } else {
        buf
    }
}

/// The image with pixel `x` and pixel `width - 1 - x` of every row exchanged.
/// A buffer that does not fit the dimensions stays as it is.
pub open spec fn mirrored(buf: Seq<u8>, width: nat, height: nat) -> Seq<u8> {
    if fits(buf, width, height) {
        Seq::new(buf.len(), |i: int| buf[mirror_source(i, width)])
    } else {
        buf
    }
}

/// What the mirror filter makes of a buffer: the flip first, then the mirroring,
/// each only where it is asked for.
pub open spec fn mirror_result(buf: Seq<u8>, width: nat, height: nat, params: Params) -> Seq<u8> {
    let after_flip = if params.horizontal {
        flipped(buf, width, height)
    } else {
        buf
    };
    if params.vertical {
        mirrored(after_flip, width, height)
    } else {
        after_flip
    }
}

/// The byte that the flip moves to `i` lies inside the image, in the opposite row.
pub proof fn lemma_flip_source(i: int, width: nat, height: nat)
    requires
        0 <= i < image_len(width, height),
    ensures
        0 <= flip_source(i, width, height) < image_len(width, height),
        row_of(flip_source(i, width, height), width) == height - 1 - row_of(i, width),
        col_of(flip_source(i, width, height), width) == col_of(i, width),
        channel_of(flip_source(i, width, height)) == channel_of(i),
        flip_source(flip_source(i, width, height), width, height) == i,
{
    assert(width > 0) by (nonlinear_arith)
        requires
            0 < width * height * 4,
    ;
    lemma_offset_of_coords(i, width);
    lemma_row_in_image(i, width, height);
    let x = col_of(i, width);
    let y = height - 1 - row_of(i, width);
    lemma_coords_of_offset(x, y, channel_of(i), width);
    lemma_offset_in_image(x, y, channel_of(i), width, height);
}

/// The byte that the mirroring moves to `i` lies inside the image, in the same row.
pub proof fn lemma_mirror_source(i: int, width: nat, height: nat)
    requires
        0 <= i < image_len(width, height),
    ensures
        0 <= mirror_source(i, width) < image_len(width, height),
        row_of(mirror_source(i, width), width) == row_of(i, width),
        col_of(mirror_source(i, width), width) == width - 1 - col_of(i, width),
        channel_of(mirror_source(i, width)) == channel_of(i),
        mirror_source(mirror_source(i, width), width) == i,
{
    assert(width > 0) by (nonlinear_arith)
        requires
            0 < width * height * 4,
    ;
    lemma_offset_of_coords(i, width);
    lemma_row_in_image(i, width, height);
    let x = width - 1 - col_of(i, width);
    let y = row_of(i, width);
    lemma_coords_of_offset(x, y, channel_of(i), width);
    lemma_offset_in_image(x, y, channel_of(i), width, height);
}

/// Flipping top to bottom twice gives the buffer back.
pub proof fn lemma_flip_twice(buf: Seq<u8>, width: nat, height: nat)
    ensures
        flipped(flipped(buf, width, height), width, height) == buf,
{
    if fits(buf, width, height) {
        let once = flipped(buf, width, height);
        let twice = flipped(once, width, height);
        assert forall|i: int| 0 <= i < buf.len() implies twice[i] == buf[i] by {
            lemma_flip_source(i, width, height);
        }
        assert(twice =~= buf);
    }
}

/// Mirroring left to right twice gives the buffer back.
pub proof fn lemma_mirror_twice(buf: Seq<u8>, width: nat, height: nat)
    ensures
        mirrored(mirrored(buf, width, height), width, height) == buf,
{
    if fits(buf, width, height) {
        let once = mirrored(buf, width, height);
        let twice = mirrored(once, width, height);
        assert forall|i: int| 0 <= i < buf.len() implies twice[i] == buf[i] by {
            lemma_mirror_source(i, width, height);
        }
        assert(twice =~= buf);
    }
}

/// The flip and the mirroring act on different axes: either order gives the same image.
pub proof fn lemma_flip_mirror_commute(buf: Seq<u8>, width: nat, height: nat)
    ensures
        mirrored(flipped(buf, width, height), width, height) == flipped(
            mirrored(buf, width, height),
            width,
            height,
        ),
{
    if fits(buf, width, height) {
        let a = mirrored(flipped(buf, width, height), width, height);
        let b = flipped(mirrored(buf, width, height), width, height);
        assert forall|i: int| 0 <= i < buf.len() implies a[i] == b[i] by {
            lemma_flip_source(i, width, height);
            lemma_mirror_source(i, width, height);
        }
        assert(a =~= b);
    }
}

/// The mirror filter undoes itself: applied twice with the same parameters,
/// whichever of the two flags they set, it gives the buffer back.
pub proof fn lemma_mirror_result_twice(buf: Seq<u8>, width: nat, height: nat, params: Params)
    ensures
        mirror_result(mirror_result(buf, width, height, params), width, height, params) == buf,
{
    lemma_flip_twice(buf, width, height);
    lemma_mirror_twice(buf, width, height);
    if params.horizontal && params.vertical {
        let flipped_once = flipped(buf, width, height);
        let once = mirrored(flipped_once, width, height);
        lemma_flip_mirror_commute(once, width, height);
        lemma_mirror_twice(flipped_once, width, height);
    }
}

/// Byte `k` of row `y` is the offset of column `k / 4`, channel `k % 4`.
proof fn lemma_row_position(y: int, k: int, width: nat)
    requires
        0 <= y,
        0 <= k < width * 4,
    ensures
        y * (width * 4) + k == offset(k / 4, y, k % 4, width),
        0 <= k / 4 < width,
        0 <= y * (width * 4),
{
    assert(y * (width * 4) == (y * width) * 4) by (nonlinear_arith);
    assert(0 <= y * width) by (nonlinear_arith)
        requires
            0 <= y,
            0 <= width,
    ;
}

/// The flip moves byte `k` of row `height - 1 - y` to byte `k` of row `y`.
proof fn lemma_flip_of_row_position(y: int, k: int, width: nat, height: nat)
    requires
        0 <= y < height,
        0 <= k < width * 4,
    ensures
        flip_source(y * (width * 4) + k, width, height) == (height - 1 - y) * (width * 4) + k,
{
    lemma_row_position(y, k, width);
    lemma_coords_of_offset(k / 4, y, k % 4, width);
    lemma_row_position(height - 1 - y, k, width);
}

/// The mirroring moves pixel `width - 1 - x` of a row to pixel `x` of that row.
proof fn lemma_mirror_of_row_position(y: int, x: int, ch: int, width: nat)
    requires
        0 <= y,
        0 <= x < width,
        0 <= ch < 4,
    ensures
        mirror_source(y * (width * 4) + x * 4 + ch, width) == y * (width * 4) + (width - 1 - x) * 4
            + ch,
{
    lemma_row_position(y, x * 4 + ch, width);
    lemma_coords_of_offset(x, y, ch, width);
    lemma_row_position(y, (width - 1 - x) * 4 + ch, width);
}

/// Rows `0..=y` end where row `y + 1` begins, inside an image of `height` rows.
proof fn lemma_row_bounds(y: int, height: int, row_bytes: int)
    requires
        0 <= y < height,
        0 <= row_bytes,
    ensures
        0 <= y * row_bytes,
        (y + 1) * row_bytes == y * row_bytes + row_bytes,
        y * row_bytes + row_bytes <= height * row_bytes,
{
    assert(0 <= y * row_bytes) by (nonlinear_arith)
        requires
            0 <= y,
            0 <= row_bytes,
    ;
    assert((y + 1) * row_bytes == y * row_bytes + row_bytes) by (nonlinear_arith);
    assert((y + 1) * row_bytes <= height * row_bytes) by (nonlinear_arith)
        requires
            y + 1 <= height,
            0 <= row_bytes,
    ;
}

/// Flips the image top to bottom: row `y` and row `height - 1 - y` change places.
/// A buffer that does not hold exactly `width * height * 4` bytes is left alone.
pub fn flip_top_bottom_in_place(width: usize, height: usize, buf: &mut [u8])
    ensures
        final(buf)@ == flipped(old(buf)@, width as nat, height as nat),
        !fits(old(buf)@, width as nat, height as nat) ==> final(buf)@ == old(buf)@,
        final(buf)@.len() == old(buf)@.len(),
{
    let len = buf.len();
    if buffer_len(width, height) != Some(len) {
        return ;
    }
    proof {
        lemma_image_rows(width as nat, height as nat);
    }
    if width == 0 || height == 0 {
        assert(buf@ =~= flipped(buf@, width as nat, height as nat));
        return ;
    }
    let row_bytes = width * 4;
    let half = height / 2;
    let mut y: usize = 0;
    while y < half
        invariant
            y <= half,
            half == height / 2,
            row_bytes == width * 4,
            buf@.len() == old(buf)@.len(),
            buf@.len() == len,
            len == height * row_bytes,
            fits(old(buf)@, width as nat, height as nat),
            forall|i: int|
                0 <= i < buf@.len() ==> #[trigger] buf@[i] == if i < y * row_bytes || i >= (height
                    - y) * row_bytes {
                    old(buf)@[flip_source(i, width as nat, height as nat)]
                } else {
                    old(buf)@[i]
                },
        decreases half - y,
    {
        proof {
            lemma_row_bounds(y as int, height as int, row_bytes as int);
            lemma_row_bounds(height - 1 - y, height as int, row_bytes as int);
            lemma_row_bounds(y as int, height - 1 - y, row_bytes as int);
        }
        let top = y * row_bytes;
        let bottom = (height - 1 - y) * row_bytes;
        let ghost before = buf@;
        swap_ranges(buf, top, bottom, row_bytes);
        proof {
            assert forall|i: int| 0 <= i < buf@.len() implies #[trigger] buf@[i] == if i < (y + 1)
                * row_bytes || i >= (height - (y + 1)) * row_bytes {
                old(buf)@[flip_source(i, width as nat, height as nat)]
            } else {
                old(buf)@[i]
            } by {
                if top <= i < top + row_bytes {
                    lemma_flip_of_row_position(y as int, i - top, width as nat, height as nat);
                    assert(before[i - top + bottom] == old(buf)@[i - top + bottom]);
                } else if bottom <= i < bottom + row_bytes {
                    lemma_flip_of_row_position(
                        height - 1 - y,
                        i - bottom,
                        width as nat,
                        height as nat,
                    );
                    assert(before[i - bottom + top] == old(buf)@[i - bottom + top]);
                } else {
                    assert(buf@[i] == before[i]);
                }
            }
        }
        y = y + 1;
    }
    proof {
        assert forall|i: int| 0 <= i < buf@.len() implies buf@[i] == old(buf)@[flip_source(
            i,
            width as nat,
            height as nat,
        )] by {
            if half * row_bytes <= i < (height - half) * row_bytes {
                lemma_row_bounds(half as int, height as int, row_bytes as int);
                lemma_flip_of_row_position(
                    half as int,
                    i - half * row_bytes,
                    width as nat,
                    height as nat,
                );
            }
        }
        assert(buf@ =~= flipped(old(buf)@, width as nat, height as nat));
    }
}

/// Mirrors the image left to right: in every row, pixel `x` and pixel
/// `width - 1 - x` change places, channel by channel.
/// A buffer that does not hold exactly `width * height * 4` bytes is left alone.
pub fn mirror_left_right_in_place(width: usize, height: usize, buf: &mut [u8])
    ensures
        final(buf)@ == mirrored(old(buf)@, width as nat, height as nat),
        !fits(old(buf)@, width as nat, height as nat) ==> final(buf)@ == old(buf)@,
        final(buf)@.len() == old(buf)@.len(),
{
    let len = buf.len();
    if buffer_len(width, height) != Some(len) {
        return ;
    }
    proof {
        lemma_image_rows(width as nat, height as nat);
    }
    if width == 0 || height == 0 {
        assert(buf@ =~= mirrored(buf@, width as nat, height as nat));
        return ;
    }
    let row_bytes = width * 4;
    let half = width / 2;
    let mut y: usize = 0;
    while y < height
        invariant
            y <= height,
            half == width / 2,
            row_bytes == width * 4,
            buf@.len() == old(buf)@.len(),
            buf@.len() == len,
            len == height * row_bytes,
            fits(old(buf)@, width as nat, height as nat),
            forall|i: int|
                0 <= i < buf@.len() ==> #[trigger] buf@[i] == if i < y * row_bytes {
                    old(buf)@[mirror_source(i, width as nat)]
                } else {
                    old(buf)@[i]
                },
        decreases height - y,
    {
        proof {
            lemma_row_bounds(y as int, height as int, row_bytes as int);
        }
        let row_start = y * row_bytes;
        let mut x: usize = 0;
        while x < half
            invariant
                x <= half,
                y < height,
                half == width / 2,
                row_bytes == width * 4,
                row_start == y * row_bytes,
                row_start + row_bytes <= len,
                buf@.len() == old(buf)@.len(),
                buf@.len() == len,
                fits(old(buf)@, width as nat, height as nat),
                forall|i: int|
                    0 <= i < buf@.len() ==> #[trigger] buf@[i] == if i < row_start + x * 4 || (
                    row_start + (width - x) * 4 <= i < row_start + row_bytes) {
                        old(buf)@[mirror_source(i, width as nat)]
                    } else {
                        old(buf)@[i]
                    },
            decreases half - x,
        {
            let left = row_start + x * 4;
            let right = row_start + (width - 1 - x) * 4;
            let ghost before = buf@;
            swap_ranges(buf, left, right, 4);
            proof {
                assert forall|i: int| 0 <= i < buf@.len() implies #[trigger] buf@[i] == if i
                    < row_start + (x + 1) * 4 || (row_start + (width - (x + 1)) * 4 <= i < row_start
                    + row_bytes) {
                    old(buf)@[mirror_source(i, width as nat)]
                } else {
                    old(buf)@[i]
                } by {
                    if left <= i < left + 4 {
                        lemma_mirror_of_row_position(y as int, x as int, i - left, width as nat);
                        assert(before[i - left + right] == old(buf)@[i - left + right]);
                    } else if right <= i < right + 4 {
                        lemma_mirror_of_row_position(
                            y as int,
                            width - 1 - x,
                            i - right,
                            width as nat,
                        );
                        assert(before[i - right + left] == old(buf)@[i - right + left]);
                    } else {
                        assert(buf@[i] == before[i]);
                    }
                }
            }
            x = x + 1;
        }
        proof {
            assert forall|i: int| 0 <= i < buf@.len() implies #[trigger] buf@[i] == if i < (y + 1)
                * row_bytes {
                old(buf)@[mirror_source(i, width as nat)]
            } else {
                old(buf)@[i]
            } by {
                if row_start + half * 4 <= i < row_start + (width - half) * 4 {
                    lemma_mirror_of_row_position(
                        y as int,
                        half as int,
                        i - row_start - half * 4,
                        width as nat,
                    );
                }
            }
        }
        y = y + 1;
    }
    proof {
        assert(buf@ =~= mirrored(old(buf)@, width as nat, height as nat));
    }
}

/// What was made of the configuration text before the call.
#[derive(Clone, Copy, Debug, PartialEq, Eq, Structural)]
pub enum Config {
    /// There was no text: the filter takes its defaults.
    Absent,
    /// There was a text, and it could not be read.
    Malformed,
    /// The text gave these parameters.
    Given(Params),
}

impl Config {
    /// The parameters that the configuration selects, if it selects any.
    pub open spec fn params(self) -> Option<Params> {
        match self {
            Config::Absent => Some(Params { horizontal: false, vertical: false }),
            Config::Malformed => None,
            Config::Given(p) => Some(p),
        }
    }
}

/// The status the mirror filter reports for a request.
pub open spec fn mirror_status(
    buf: Seq<u8>,
    width: nat,
    height: nat,
    config: Config,
) -> FilterStatus {
    if config.params() is None {
        FilterStatus::InvalidConfig
    } else if !fits(buf, width, height) {
        FilterStatus::NoOp
    } else {
        FilterStatus::Success
    }
}

/// Runs the mirror filter on an image of `width` by `height` pixels.
///
/// A configuration that could not be read fails the call with `InvalidConfig`;
/// a missing one selects the defaults, which change nothing. A buffer that
/// does not hold exactly `width * height * 4` bytes gives `NoOp`. In both
/// cases the buffer is left as it was. Otherwise the rows are exchanged if
/// `horizontal` is set, then the columns if `vertical` is set.
pub fn process_image(
    width: u32,
    height: u32,
    rgba_data: &mut [u8],
    config: Config,
) -> (status: FilterStatus)
    ensures
        status == mirror_status(old(rgba_data)@, width as nat, height as nat, config),
        final(rgba_data)@ == match config.params() {
            Some(p) => mirror_result(old(rgba_data)@, width as nat, height as nat, p),
            None => old(rgba_data)@,
        },
        status != FilterStatus::Success ==> final(rgba_data)@ == old(rgba_data)@,
{
    let params = match config {
        Config::Absent => Params::default(),
        Config::Malformed => {
            return FilterStatus::InvalidConfig;
        },
        Config::Given(p) => p,
    };
    let w = width as usize;
    let h = height as usize;
    if buffer_len(w, h) != Some(rgba_data.len()) {
        return FilterStatus::NoOp;
    }
    if params.horizontal {
        flip_top_bottom_in_place(w, h, rgba_data);
    }
    if params.vertical {
        mirror_left_right_in_place(w, h, rgba_data);
    }
    FilterStatus::Success
}

} // verus!
