//! The blur filter: every pixel becomes the weighted average of the pixels
//! in a square window around it, clipped to the image.
//!
//! How much a neighbour counts is given by a [`Kernel`], by how many columns
//! and rows it lies from the centre of the window. At the border the window
//! is cut off, not padded: a pixel there is the average of fewer neighbours.
//! The average is rounded to the nearest whole number, halves upwards. The
//! average of bytes is a byte again, so that no result has to be clamped.

use vstd::prelude::*;
use vstd::arithmetic::div_mod::lemma_fundamental_div_mod_converse;
use crate::abi::FilterStatus;
use crate::blur_config::{parse_params, params_of, BlurParams, DEFAULT_ITERATIONS, DEFAULT_RADIUS};
use crate::kernel::{is_kernel_table, span, table_weight, Kernel, MAX_WEIGHT};
use crate::pixel_buffer::{
    buffer_len, channel_of, col_of, fits, lemma_coords_of_offset, lemma_offset_in_image,
    lemma_offset_of_coords, lemma_row_in_image, offset, row_of,
};

verus! {

/// First row or column of the window around coordinate `c`.
pub open spec fn window_start(c: int, radius: int) -> int {
    if c - radius < 0 {
        0
    } else {
        c - radius
    }
}

/// Row or column just past the window around coordinate `c`, in an image that
/// has `n` of them.
pub open spec fn window_end(c: int, radius: int, n: int) -> int {
    if c + radius + 1 > n {
        n
    } else {
        c + radius + 1
    }
}

/// Channel `ch` of the pixel in column `x` of row `y`.
pub open spec fn sample(src: Seq<u8>, width: nat, x: int, y: int, ch: int) -> int {
    src[offset(x, y, ch, width)] as int
}

/// Sum of the weights of columns `x0..x_end` of row `ny`, as they count for
/// the pixel at `(cx, cy)`.
pub open spec fn row_weight(
    kernel: Seq<Seq<u64>>,
    cx: int,
    cy: int,
    ny: int,
    x0: int,
    x_end: int,
) -> int
    decreases x_end - x0,
{
    if x_end <= x0 {
        0
    } else {
        row_weight(kernel, cx, cy, ny, x0, x_end - 1) + table_weight(
            kernel,
            x_end - 1 - cx,
            ny - cy,
        )
    }
}

/// Weighted sum of channel `ch` over columns `x0..x_end` of row `ny`.
pub open spec fn row_sum(
    src: Seq<u8>,
    width: nat,
    kernel: Seq<Seq<u64>>,
    ch: int,
    cx: int,
    cy: int,
    ny: int,
    x0: int,
    x_end: int,
) -> int
    decreases x_end - x0,
{
    if x_end <= x0 {
        0
    } else {
        row_sum(src, width, kernel, ch, cx, cy, ny, x0, x_end - 1) + sample(
            src,
            width,
            x_end - 1,
            ny,
            ch,
        ) * table_weight(kernel, x_end - 1 - cx, ny - cy)
    }
}

/// Sum of the weights of the window of columns `x0..x_end` and rows `y0..y_end`.
pub open spec fn window_weight(
    kernel: Seq<Seq<u64>>,
    cx: int,
    cy: int,
    x0: int,
    x_end: int,
    y0: int,
    y_end: int,
) -> int
    decreases y_end - y0,
{
    if y_end <= y0 {
        0
    } else {
        window_weight(kernel, cx, cy, x0, x_end, y0, y_end - 1) + row_weight(
            kernel,
            cx,
            cy,
            y_end - 1,
            x0,
            x_end,
        )
    }
}

/// Weighted sum of channel `ch` over the window of columns `x0..x_end` and
/// rows `y0..y_end`.
pub open spec fn window_sum(
    src: Seq<u8>,
    width: nat,
    kernel: Seq<Seq<u64>>,
    ch: int,
    cx: int,
    cy: int,
    x0: int,
    x_end: int,
    y0: int,
    y_end: int,
) -> int
    decreases y_end - y0,
{
    if y_end <= y0 {
        0
    } else {
        window_sum(src, width, kernel, ch, cx, cy, x0, x_end, y0, y_end - 1) + row_sum(
            src,
            width,
            kernel,
            ch,
            cx,
            cy,
            y_end - 1,
            x0,
            x_end,
        )
    }
}

/// Channel `ch` of the pixel at `(x, y)` after one pass: the weighted sum over
/// the window divided by the sum of the weights, rounded to the nearest
/// integer, halves upwards.
pub open spec fn blurred_channel(
    src: Seq<u8>,
    width: nat,
    height: nat,
    radius: nat,
    kernel: Seq<Seq<u64>>,
    x: int,
    y: int,
    ch: int,
) -> int {
    let x0 = window_start(x, radius as int);
    let x_end = window_end(x, radius as int, width as int);
    let y0 = window_start(y, radius as int);
    let y_end = window_end(y, radius as int, height as int);
    let total = window_sum(src, width, kernel, ch, x, y, x0, x_end, y0, y_end);
    let weights = window_weight(kernel, x, y, x0, x_end, y0, y_end);
    (2 * total + weights) / (2 * weights)
}

/// The image after one pass over all its pixels, each computed from `src`.
pub open spec fn blur_pass(
    src: Seq<u8>,
    width: nat,
    height: nat,
    radius: nat,
    kernel: Seq<Seq<u64>>,
) -> Seq<u8> {
    Seq::new(
        src.len(),
        |i: int|
            blurred_channel(
                src,
                width,
                height,
                radius,
                kernel,
                col_of(i, width),
                row_of(i, width),
                channel_of(i),
            ) as u8,
    )
}

/// The image after `n` passes, each made on the result of the one before.
pub open spec fn blur_passes(
    src: Seq<u8>,
    width: nat,
    height: nat,
    radius: nat,
    kernel: Seq<Seq<u64>>,
    n: nat,
) -> Seq<u8>
    decreases n,
{
    if n == 0 {
        src
    } else {
        let before = blur_passes(src, width, height, radius, kernel, (n - 1) as nat);
        blur_pass(before, width, height, radius, kernel)
    }
}

/// Whether a blur request leaves the buffer as it is: an empty image, a
/// radius or a number of passes of zero, or a buffer that does not fit the
/// dimensions.
pub open spec fn blur_is_identity(
    buf: Seq<u8>,
    width: nat,
    height: nat,
    radius: nat,
    iterations: nat,
) -> bool {
    width == 0 || height == 0 || radius == 0 || iterations == 0 || !fits(buf, width, height)
}

/// What the blur filter makes of a buffer.
pub open spec fn blurred(
    buf: Seq<u8>,
    width: nat,
    height: nat,
    radius: nat,
    iterations: nat,
    kernel: Seq<Seq<u64>>,
) -> Seq<u8> {
    if blur_is_identity(buf, width, height, radius, iterations) {
        buf
    } else {
        blur_passes(buf, width, height, radius, kernel, iterations)
    }
}

/// The blur applied `times` times in a row, one pass each time.
pub open spec fn blurred_repeatedly(
    buf: Seq<u8>,
    width: nat,
    height: nat,
    radius: nat,
    kernel: Seq<Seq<u64>>,
    times: nat,
) -> Seq<u8>
    decreases times,
{
    if times == 0 {
        buf
    } else {
        let before = blurred_repeatedly(buf, width, height, radius, kernel, (times - 1) as nat);
        blurred(before, width, height, radius, 1, kernel)
    }
}

/// Passes keep the length of the buffer.
pub proof fn lemma_blur_passes_len(
    src: Seq<u8>,
    width: nat,
    height: nat,
    radius: nat,
    kernel: Seq<Seq<u64>>,
    n: nat,
)
    ensures
        blur_passes(src, width, height, radius, kernel, n).len() == src.len(),
    decreases n,
{
    if n > 0 {
        lemma_blur_passes_len(src, width, height, radius, kernel, (n - 1) as nat);
    }
}

/// One call with `k` passes gives what `k` calls with one pass each give.
pub proof fn lemma_blur_iterations(
    buf: Seq<u8>,
    width: nat,
    height: nat,
    radius: nat,
    kernel: Seq<Seq<u64>>,
    k: nat,
)
    ensures
        blurred(buf, width, height, radius, k, kernel) == blurred_repeatedly(
            buf,
            width,
            height,
            radius,
            kernel,
            k,
        ),
    decreases k,
{
    if k > 0 {
        let before = (k - 1) as nat;
        lemma_blur_iterations(buf, width, height, radius, kernel, before);
        lemma_blur_passes_len(buf, width, height, radius, kernel, before);
        reveal_with_fuel(blur_passes, 2);
        if blur_is_identity(buf, width, height, radius, 1) {
            assert(blurred_repeatedly(buf, width, height, radius, kernel, before) == buf);
        } else if before == 0 {
        } else {
            let prev = blur_passes(buf, width, height, radius, kernel, before);
            assert(blurred_repeatedly(buf, width, height, radius, kernel, before) == prev);
            assert(!blur_is_identity(prev, width, height, radius, 1));
        }
    }
}

/// Every pixel of the buffer has the colour of the first.
pub open spec fn is_uniform(buf: Seq<u8>) -> bool {
    forall|i: int| 0 <= i < buf.len() ==> #[trigger] buf[i] == buf[channel_of(i)]
}

/// Weights of a row add up to no less than zero, and to no less than the
/// centre's where the row holds the centre.
proof fn lemma_row_weight_bounds(
    kernel: Seq<Seq<u64>>,
    cx: int,
    cy: int,
    ny: int,
    x0: int,
    x_end: int,
)
    ensures
        0 <= row_weight(kernel, cx, cy, ny, x0, x_end),
        ny == cy && x0 <= cx < x_end ==> table_weight(kernel, 0, 0) <= row_weight(
            kernel,
            cx,
            cy,
            ny,
            x0,
            x_end,
        ),
    decreases x_end - x0,
{
    if x0 < x_end {
        lemma_row_weight_bounds(kernel, cx, cy, ny, x0, x_end - 1);
    }
}

/// Weights of a window add up to no less than zero, and to no less than the
/// centre's where the window holds the centre.
proof fn lemma_window_weight_bounds(
    kernel: Seq<Seq<u64>>,
    cx: int,
    cy: int,
    x0: int,
    x_end: int,
    y0: int,
    y_end: int,
)
    ensures
        0 <= window_weight(kernel, cx, cy, x0, x_end, y0, y_end),
        x0 <= cx < x_end && y0 <= cy < y_end ==> table_weight(kernel, 0, 0) <= window_weight(
            kernel,
            cx,
            cy,
            x0,
            x_end,
            y0,
            y_end,
        ),
    decreases y_end - y0,
{
    if y0 < y_end {
        lemma_window_weight_bounds(kernel, cx, cy, x0, x_end, y0, y_end - 1);
        lemma_row_weight_bounds(kernel, cx, cy, y_end - 1, x0, x_end);
    }
}

/// Over a row of one colour, the weighted sum is that colour times the weights.
proof fn lemma_row_sum_uniform(
    src: Seq<u8>,
    width: nat,
    height: nat,
    kernel: Seq<Seq<u64>>,
    ch: int,
    cx: int,
    cy: int,
    ny: int,
    x0: int,
    x_end: int,
)
    requires
        fits(src, width, height),
        is_uniform(src),
        0 <= ch < 4,
        0 <= ny < height,
        0 <= x0,
        x_end <= width,
    ensures
        row_sum(src, width, kernel, ch, cx, cy, ny, x0, x_end) == src[ch] * row_weight(
            kernel,
            cx,
            cy,
            ny,
            x0,
            x_end,
        ),
    decreases x_end - x0,
{
    if x0 < x_end {
        lemma_row_sum_uniform(src, width, height, kernel, ch, cx, cy, ny, x0, x_end - 1);
        lemma_offset_in_image(x_end - 1, ny, ch, width, height);
        lemma_coords_of_offset(x_end - 1, ny, ch, width);
        let colour = src[ch] as int;
        let before = row_weight(kernel, cx, cy, ny, x0, x_end - 1);
        let here = table_weight(kernel, x_end - 1 - cx, ny - cy);
        assert(sample(src, width, x_end - 1, ny, ch) == colour);
        assert(colour * before + colour * here == colour * (before + here)) by (nonlinear_arith);
    }
}

/// Over a window of one colour, the weighted sum is that colour times the weights.
proof fn lemma_window_sum_uniform(
    src: Seq<u8>,
    width: nat,
    height: nat,
    kernel: Seq<Seq<u64>>,
    ch: int,
    cx: int,
    cy: int,
    x0: int,
    x_end: int,
    y0: int,
    y_end: int,
)
    requires
        fits(src, width, height),
        is_uniform(src),
        0 <= ch < 4,
        0 <= x0,
        x_end <= width,
        0 <= y0,
        y_end <= height,
    ensures
        window_sum(src, width, kernel, ch, cx, cy, x0, x_end, y0, y_end) == src[ch]
            * window_weight(kernel, cx, cy, x0, x_end, y0, y_end),
    decreases y_end - y0,
{
    if y0 < y_end {
        lemma_window_sum_uniform(src, width, height, kernel, ch, cx, cy, x0, x_end, y0, y_end - 1);
        lemma_row_sum_uniform(src, width, height, kernel, ch, cx, cy, y_end - 1, x0, x_end);
        let colour = src[ch] as int;
        let before = window_weight(kernel, cx, cy, x0, x_end, y0, y_end - 1);
        let here = row_weight(kernel, cx, cy, y_end - 1, x0, x_end);
        assert(colour * before + colour * here == colour * (before + here)) by (nonlinear_arith);
    }
}

/// An image of one colour is a fixed point of the blur: the weighted average
/// of equal values is that value, whatever the weights, the radius and the
/// number of passes.
pub proof fn lemma_blur_uniform(
    buf: Seq<u8>,
    width: nat,
    height: nat,
    radius: nat,
    iterations: nat,
    kernel: Seq<Seq<u64>>,
)
    requires
        is_uniform(buf),
        is_kernel_table(kernel),
    ensures
        blurred(buf, width, height, radius, iterations, kernel) == buf,
    decreases iterations,
{
    if !blur_is_identity(buf, width, height, radius, iterations) {
        let before = blur_passes(buf, width, height, radius, kernel, (iterations - 1) as nat);
        if iterations > 1 {
            lemma_blur_uniform(buf, width, height, radius, (iterations - 1) as nat, kernel);
        }
        assert(before == buf);
        let after = blur_pass(buf, width, height, radius, kernel);
        assert forall|i: int| 0 <= i < buf.len() implies after[i] == buf[i] by {
            lemma_offset_of_coords(i, width);
            lemma_row_in_image(i, width, height);
            let x = col_of(i, width);
            let y = row_of(i, width);
            let ch = channel_of(i);
            let x0 = window_start(x, radius as int);
            let x_end = window_end(x, radius as int, width as int);
            let y0 = window_start(y, radius as int);
            let y_end = window_end(y, radius as int, height as int);
            lemma_window_sum_uniform(buf, width, height, kernel, ch, x, y, x0, x_end, y0, y_end);
            lemma_window_weight_bounds(kernel, x, y, x0, x_end, y0, y_end);
            let weights = window_weight(kernel, x, y, x0, x_end, y0, y_end);
            let colour = buf[ch] as int;
            assert(2 * (colour * weights) + weights == colour * (2 * weights) + weights)
                by (nonlinear_arith);
            lemma_fundamental_div_mod_converse(
                2 * (colour * weights) + weights,
                2 * weights,
                colour,
                weights,
            );
        }
        assert(after =~= buf);
    }
}

/// Weighted sums of the four channels, and the sum of the weights.
struct Sums {
    red: u128,
    green: u128,
    blue: u128,
    alpha: u128,
    weight: u128,
}

impl Sums {
    /// No channel adds up to more than 255 times the weights.
    spec fn bounded(self) -> bool {
        &&& self.red <= 255 * self.weight
        &&& self.green <= 255 * self.weight
        &&& self.blue <= 255 * self.weight
        &&& self.alpha <= 255 * self.weight
    }

    /// These are the sums over columns `x0..x_end` of row `ny`.
    spec fn of_row(
        self,
        src: Seq<u8>,
        width: nat,
        kernel: Seq<Seq<u64>>,
        cx: int,
        cy: int,
        ny: int,
        x0: int,
        x_end: int,
    ) -> bool {
        &&& self.weight == row_weight(kernel, cx, cy, ny, x0, x_end)
        &&& self.red == row_sum(src, width, kernel, 0, cx, cy, ny, x0, x_end)
        &&& self.green == row_sum(src, width, kernel, 1, cx, cy, ny, x0, x_end)
        &&& self.blue == row_sum(src, width, kernel, 2, cx, cy, ny, x0, x_end)
        &&& self.alpha == row_sum(src, width, kernel, 3, cx, cy, ny, x0, x_end)
    }

    /// These are the sums over columns `x0..x_end` of rows `y0..y_end`.
    spec fn of_window(
        self,
        src: Seq<u8>,
        width: nat,
        kernel: Seq<Seq<u64>>,
        cx: int,
        cy: int,
        x0: int,
        x_end: int,
        y0: int,
        y_end: int,
    ) -> bool {
        &&& self.weight == window_weight(kernel, cx, cy, x0, x_end, y0, y_end)
        &&& self.red == window_sum(src, width, kernel, 0, cx, cy, x0, x_end, y0, y_end)
        &&& self.green == window_sum(src, width, kernel, 1, cx, cy, x0, x_end, y0, y_end)
        &&& self.blue == window_sum(src, width, kernel, 2, cx, cy, x0, x_end, y0, y_end)
        &&& self.alpha == window_sum(src, width, kernel, 3, cx, cy, x0, x_end, y0, y_end)
    }
}

/// Sums the weighted channels of columns `x0..x_end` of row `ny`, as they
/// count for the pixel at `(x, y)`.
fn sum_row(
    src: &[u8],
    width: usize,
    height: usize,
    kernel: &Kernel,
    x: usize,
    y: usize,
    ny: usize,
    x0: usize,
    x_end: usize,
) -> (sums: Sums)
    requires
        fits(src@, width as nat, height as nat),
        x < width,
        ny < height,
        x0 <= x_end <= width,
        x_end - x0 <= 0x2_0000_0000,
    ensures
        sums.of_row(
            src@,
            width as nat,
            kernel@,
            x as int,
            y as int,
            ny as int,
            x0 as int,
            x_end as int,
        ),
        sums.bounded(),
        sums.weight <= MAX_WEIGHT * (x_end - x0),
        ny == y && x0 <= x < x_end ==> sums.weight >= 1,
{
    let len = src.len();
    let ghost w = width as nat;
    let ghost cx = x as int;
    let ghost cy = y as int;
    proof {
        lemma_offset_in_image(0, ny as int, 0, w, height as nat);
    }
    let row_base = ny * width;
    let ady = if ny >= y { ny - y } else { y - ny };
    let mut sums = Sums { red: 0, green: 0, blue: 0, alpha: 0, weight: 0 };
    let mut nx = x0;
    while nx < x_end
        invariant
            x0 <= nx <= x_end <= width,
            x < width,
            ny < height,
            x_end - x0 <= 0x2_0000_0000,
            fits(src@, w, height as nat),
            w == width,
            cx == x,
            cy == y,
            len == src@.len(),
            row_base == ny * width,
            ady == span(ny - y),
            sums.of_row(src@, w, kernel@, cx, cy, ny as int, x0 as int, nx as int),
            sums.bounded(),
            sums.weight <= MAX_WEIGHT * (nx - x0),
            ny == y && x0 <= x < nx ==> sums.weight >= 1,
        decreases x_end - nx,
    {
        let adx = if nx >= x { nx - x } else { x - nx };
        let weight_here = kernel.weight_at(adx, ady) as u128;
        proof {
            assert(weight_here == table_weight(kernel@, nx - cx, ny - cy));
            lemma_offset_in_image(nx as int, ny as int, 0, w, height as nat);
            lemma_offset_in_image(nx as int, ny as int, 3, w, height as nat);
        }
        let idx = (row_base + nx) * 4;
        let s0 = src[idx] as u128;
        let s1 = src[idx + 1] as u128;
        let s2 = src[idx + 2] as u128;
        let s3 = src[idx + 3] as u128;
        proof {
            assert(s0 == sample(src@, w, nx as int, ny as int, 0));
            assert(s1 == sample(src@, w, nx as int, ny as int, 1));
            assert(s2 == sample(src@, w, nx as int, ny as int, 2));
            assert(s3 == sample(src@, w, nx as int, ny as int, 3));
            lemma_weighted_byte(s0 as int, weight_here as int);
            lemma_weighted_byte(s1 as int, weight_here as int);
            lemma_weighted_byte(s2 as int, weight_here as int);
            lemma_weighted_byte(s3 as int, weight_here as int);
        }
        sums = Sums {
            red: sums.red + s0 * weight_here,
            green: sums.green + s1 * weight_here,
            blue: sums.blue + s2 * weight_here,
            alpha: sums.alpha + s3 * weight_here,
            weight: sums.weight + weight_here,
        };
        nx = nx + 1;
    }
    sums
}

/// A byte times a weight is at most 255 times the weight.
proof fn lemma_weighted_byte(byte: int, weight: int)
    requires
        0 <= byte <= 255,
        0 <= weight,
    ensures
        0 <= byte * weight <= 255 * weight,
{
    assert(0 <= byte * weight <= 255 * weight) by (nonlinear_arith)
        requires
            0 <= byte <= 255,
            0 <= weight,
    ;
}

/// A weighted average of bytes, rounded, is a byte.
proof fn lemma_rounded_average_bound(total: int, weights: int)
    requires
        0 <= total <= 255 * weights,
        0 < weights,
    ensures
        0 <= (2 * total + weights) / (2 * weights) <= 255,
{
    let n = 2 * total + weights;
    let d = 2 * weights;
    assert(0 <= n / d <= 255) by (nonlinear_arith)
        requires
            0 <= n < 256 * d,
            0 < d,
    ;
}

/// Divides a weighted sum by the sum of the weights and rounds, halves upwards.
fn rounded_average(total: u128, weights: u128) -> (average: u8)
    requires
        total <= 255 * weights,
        0 < weights <= 0x80_0000_0000_0000_0000_0000_0000_0000,
    ensures
        average == (2 * total + weights) / (2 * weights),
{
    proof {
        lemma_rounded_average_bound(total as int, weights as int);
    }
    ((2 * total + weights) / (2 * weights)) as u8
}

/// `px` holds the four channels of the pixel at `(x, y)` after one pass.
spec fn is_blurred_pixel(
    px: (u8, u8, u8, u8),
    src: Seq<u8>,
    width: nat,
    height: nat,
    radius: nat,
    kernel: Seq<Seq<u64>>,
    x: int,
    y: int,
) -> bool {
    &&& px.0 == blurred_channel(src, width, height, radius, kernel, x, y, 0)
    &&& px.1 == blurred_channel(src, width, height, radius, kernel, x, y, 1)
    &&& px.2 == blurred_channel(src, width, height, radius, kernel, x, y, 2)
    &&& px.3 == blurred_channel(src, width, height, radius, kernel, x, y, 3)
}

/// Computes the four channels of the pixel at `(x, y)` after one pass.
fn blur_pixel(
    src: &[u8],
    width: usize,
    height: usize,
    radius: u32,
    kernel: &Kernel,
    x: usize,
    y: usize,
) -> (px: (u8, u8, u8, u8))
    requires
        fits(src@, width as nat, height as nat),
        x < width,
        y < height,
    ensures
        is_blurred_pixel(
            px,
            src@,
            width as nat,
            height as nat,
            radius as nat,
            kernel@,
            x as int,
            y as int,
        ),
{
    let r = radius as usize;
    let x0 = if x >= r { x - r } else { 0 };
    let x_end = if r < width - x { x + r + 1 } else { width };
    let y0 = if y >= r { y - r } else { 0 };
    let y_end = if r < height - y { y + r + 1 } else { height };
    let ghost w = width as nat;
    let ghost cx = x as int;
    let ghost cy = y as int;
    let mut acc = Sums { red: 0, green: 0, blue: 0, alpha: 0, weight: 0 };
    let mut ny = y0;
    while ny < y_end
        invariant
            y0 <= ny <= y_end <= height,
            x0 <= x < x_end <= width,
            y0 <= y < y_end,
            x_end - x0 <= 0x2_0000_0000,
            y_end - y0 <= 0x2_0000_0000,
            w == width,
            cx == x,
            cy == y,
            fits(src@, w, height as nat),
            acc.of_window(src@, w, kernel@, cx, cy, x0 as int, x_end as int, y0 as int, ny as int),
            acc.bounded(),
            acc.weight <= 0x40_0000_0000_0000_0000_0000 * (ny - y0),
            ny > y ==> acc.weight >= 1,
        decreases y_end - ny,
    {
        let row = sum_row(src, width, height, kernel, x, y, ny, x0, x_end);
        acc = Sums {
            red: acc.red + row.red,
            green: acc.green + row.green,
            blue: acc.blue + row.blue,
            alpha: acc.alpha + row.alpha,
            weight: acc.weight + row.weight,
        };
        ny = ny + 1;
    }
    (
        rounded_average(acc.red, acc.weight),
        rounded_average(acc.green, acc.weight),
        rounded_average(acc.blue, acc.weight),
        rounded_average(acc.alpha, acc.weight),
    )
}

/// Makes one pass: fills `dst` with the blurred image of `src`.
fn blur_pass_into(
    src: &[u8],
    dst: &mut Vec<u8>,
    width: usize,
    height: usize,
    radius: u32,
    kernel: &Kernel,
)
    requires
        fits(src@, width as nat, height as nat),
        old(dst)@.len() == src@.len(),
        0 < width,
    ensures
        final(dst)@ == blur_pass(src@, width as nat, height as nat, radius as nat, kernel@),
{
    let len = src.len();
    let pixels = len / 4;
    let ghost w = width as nat;
    let ghost h = height as nat;
    let ghost target = blur_pass(src@, w, h, radius as nat, kernel@);
    let mut p: usize = 0;
    while p < pixels
        invariant
            p <= pixels,
            pixels * 4 == len,
            len == src@.len(),
            dst@.len() == len,
            0 < width,
            w == width,
            h == height,
            fits(src@, w, h),
            target == blur_pass(src@, w, h, radius as nat, kernel@),
            forall|i: int| 0 <= i < p * 4 ==> #[trigger] dst@[i] == target[i],
        decreases pixels - p,
    {
        let x = p % width;
        let y = p / width;
        proof {
            lemma_row_in_image(p * 4, w, h);
        }
        let px = blur_pixel(src, width, height, radius, kernel, x, y);
        let at = p * 4;
        dst[at] = px.0;
        dst[at + 1] = px.1;
        dst[at + 2] = px.2;
        dst[at + 3] = px.3;
        proof {
            assert forall|i: int| 0 <= i < (p + 1) * 4 implies #[trigger] dst@[i] == target[i] by {
                if i >= at {
                    assert(i / 4 == p);
                    assert(col_of(i, w) == x && row_of(i, w) == y);
                }
            }
        }
        p = p + 1;
    }
    assert(dst@ =~= target);
}

/// Blurs the image in place, `iterations` times over.
///
/// Each pass replaces every channel of every pixel by the weighted average of
/// that channel over the pixels at most `radius` rows and columns away, as
/// far as they lie inside the image. A neighbour counts with the weight that
/// `kernel` gives for its distance in columns and rows; the average is
/// rounded to the nearest whole number, halves upwards. A pass reads the
/// image as the pass before left it.
/// With `width`, `height`, `radius` or `iterations` zero, or with a buffer that
/// does not hold exactly `width * height * 4` bytes, the buffer is left alone.
pub fn blur_in_place(
    width: usize,
    height: usize,
    buf: &mut [u8],
    radius: u32,
    iterations: u32,
    kernel: &Kernel,
)
    ensures
        final(buf)@ == blurred(
            old(buf)@,
            width as nat,
            height as nat,
            radius as nat,
            iterations as nat,
            kernel@,
        ),
        radius == 0 || iterations == 0 ==> final(buf)@ == old(buf)@,
        !fits(old(buf)@, width as nat, height as nat) ==> final(buf)@ == old(buf)@,
        final(buf)@.len() == old(buf)@.len(),
{
    let len = buf.len();
    if width == 0 || height == 0 || radius == 0 || iterations == 0 {
        return ;
    }
    if buffer_len(width, height) != Some(len) {
        return ;
    }
    let mut scratch: Vec<u8> = vec![0u8; len];
    let ghost w = width as nat;
    let ghost h = height as nat;
    let mut done: u32 = 0;
    while done < iterations
        invariant
            done <= iterations,
            0 < width,
            w == width,
            h == height,
            len == buf@.len(),
            scratch@.len() == len,
            fits(buf@, w, h),
            buf@ == blur_passes(old(buf)@, w, h, radius as nat, kernel@, done as nat),
        decreases iterations - done,
    {
        blur_pass_into(buf, &mut scratch, width, height, radius, kernel);
        let mut i: usize = 0;
        while i < len
            invariant
                i <= len,
                len == buf@.len(),
                scratch@.len() == len,
                forall|j: int| 0 <= j < i ==> #[trigger] buf@[j] == scratch@[j],
            decreases len - i,
        {
            buf[i] = scratch[i];
            i = i + 1;
        }
        assert(buf@ =~= scratch@);
        done = done + 1;
    }
    proof {
        lemma_blur_passes_len(old(buf)@, w, h, radius as nat, kernel@, iterations as nat);
    }
}

/// The status the blur filter reports for a buffer and its dimensions.
pub open spec fn blur_status(buf: Seq<u8>, width: nat, height: nat) -> FilterStatus {
    if fits(buf, width, height) {
        FilterStatus::Success
    } else {
        FilterStatus::NoOp
    }
}

/// The parameters that a configuration selects: those of its text, or the
/// defaults where there is none.
pub open spec fn params_for(config: Option<&str>) -> BlurParams {
    match config {
        Some(text) => params_of(text@),
        None => BlurParams { radius: DEFAULT_RADIUS, iterations: DEFAULT_ITERATIONS },
    }
}

/// Reads the blur parameters of a configuration: those of its text, or the
/// defaults where there is none.
pub fn read_params(config: Option<&str>) -> (params: BlurParams)
    ensures
        params == params_for(config),
{
    match config {
        Some(text) => parse_params(text),
        None => BlurParams { radius: DEFAULT_RADIUS, iterations: DEFAULT_ITERATIONS },
    }
}

/// Blurs an image of `width` by `height` pixels with the given parameters
/// and weights.
pub fn blur_with(
    width: u32,
    height: u32,
    rgba_data: &mut [u8],
    params: BlurParams,
    kernel: &Kernel,
) -> (status: FilterStatus)
    ensures
        status == blur_status(old(rgba_data)@, width as nat, height as nat),
        final(rgba_data)@ == blurred(
            old(rgba_data)@,
            width as nat,
            height as nat,
            params.radius as nat,
            params.iterations as nat,
            kernel@,
        ),
        status == FilterStatus::NoOp ==> final(rgba_data)@ == old(rgba_data)@,
{
    if buffer_len(width as usize, height as usize) != Some(rgba_data.len()) {
        return FilterStatus::NoOp;
    }
    blur_in_place(
        width as usize,
        height as usize,
        rgba_data,
        params.radius,
        params.iterations,
        kernel,
    );
    FilterStatus::Success
}

/// Runs the blur filter on an image of `width` by `height` pixels.
///
/// `params` is the configuration text, `None` where there is none. The text
/// may give `radius` and `iterations` anywhere, in any letter case; what it
/// does not give has its default, and no text is refused. `kernel` gives the
/// weights of the neighbours. A buffer that does not hold exactly
/// `width * height * 4` bytes gives `NoOp` and stays as it was.
pub fn process_image(
    width: u32,
    height: u32,
    rgba_data: &mut [u8],
    params: Option<&str>,
    kernel: &Kernel,
) -> (status: FilterStatus)
    ensures
        status == blur_status(old(rgba_data)@, width as nat, height as nat),
        final(rgba_data)@ == blurred(
            old(rgba_data)@,
            width as nat,
            height as nat,
            params_for(params).radius as nat,
            params_for(params).iterations as nat,
            kernel@,
        ),
        status == FilterStatus::NoOp ==> final(rgba_data)@ == old(rgba_data)@,
{
    let chosen = read_params(params);
    blur_with(width, height, rgba_data, chosen, kernel)
}

} // verus!
