use vstd::prelude::*;
use vstd::arithmetic::div_mod::lemma_fundamental_div_mod_converse;

verus! {

/// Number of taps of the blur kernel.
pub const KERNEL_SIZE: usize = 17;

/// Half the kernel: the tap at index `HALF` weighs the pixel itself.
pub const HALF: usize = 8;

/// The 8-bit channel of pixel `p` that starts at bit `shift`.
pub open spec fn channel(p: u32, shift: u32) -> u32 {
    (p >> shift) & 0xff
}

/// The weighted sum, over the first `n` taps, of one channel of the pixels
/// around position `center` of a line of `len` pixels; the line's pixel `t`
/// is the word at `base + t * step` of `buf`. Taps that fall outside the
/// line count nothing.
pub open spec fn tap_sum(
    buf: Seq<u32>,
    base: int,
    step: int,
    len: int,
    center: int,
    shift: u32,
    kernel: Seq<u8>,
    n: int,
) -> int
    decreases n,
{
    if n <= 0 {
        0
    } else {
        let t = center - HALF + (n - 1);
        tap_sum(buf, base, step, len, center, shift, kernel, n - 1) + if 0 <= t < len {
            channel(buf[base + t * step], shift) * kernel[n - 1]
        } else {
            0
        }
    }
}

/// The blurred pixel at `center` of a line: each channel is its weighted sum
/// over all taps divided by the sum of the kernel, `total`.
pub open spec fn blurred(
    buf: Seq<u32>,
    base: int,
    step: int,
    len: int,
    center: int,
    kernel: Seq<u8>,
    total: int,
) -> u32 {
    let x = (tap_sum(buf, base, step, len, center, 24, kernel, KERNEL_SIZE as int) / total) as u32;
    let y = (tap_sum(buf, base, step, len, center, 16, kernel, KERNEL_SIZE as int) / total) as u32;
    let z = (tap_sum(buf, base, step, len, center, 8, kernel, KERNEL_SIZE as int) / total) as u32;
    let w = (tap_sum(buf, base, step, len, center, 0, kernel, KERNEL_SIZE as int) / total) as u32;
    (x << 24) | (y << 16) | (z << 8) | w
}

/// The sum of the kernel's weights.
pub open spec fn kernel_total(kernel: Seq<u8>, n: int) -> int
    decreases n,
{
    if n <= 0 {
        0
    } else {
        kernel_total(kernel, n - 1) + kernel[n - 1]
    }
}

/// Whether position `p` of a line of `len` pixels is far enough from both
/// ends (more than `radius`) to be left as it is.
pub open spec fn is_inner(p: int, len: int, radius: int) -> bool {
    radius < p && p < len - radius
}

proof fn lemma_channel_bound(p: u32, shift: u32)
    requires
        shift <= 24,
    ensures
        channel(p, shift) <= 255,
{
    assert((p >> shift) & 0xff <= 255) by (bit_vector);
}

proof fn lemma_tap_sum_bound(
    buf: Seq<u32>,
    base: int,
    step: int,
    len: int,
    center: int,
    shift: u32,
    kernel: Seq<u8>,
    n: int,
)
    requires
        shift <= 24,
        0 <= n <= kernel.len(),
        forall|t: int| 0 <= t < len ==> 0 <= #[trigger] (base + t * step) < buf.len(),
    ensures
        0 <= tap_sum(buf, base, step, len, center, shift, kernel, n) <= 255 * kernel_total(kernel, n),
    decreases n,
{
    if n > 0 {
        lemma_tap_sum_bound(buf, base, step, len, center, shift, kernel, n - 1);
        let t = center - HALF + (n - 1);
        if 0 <= t < len {
            let c = channel(buf[base + t * step], shift);
            lemma_channel_bound(buf[base + t * step], shift);
            let kw = kernel[n - 1] as int;
            assert(c * kw <= 255 * kw) by (nonlinear_arith)
                requires
                    c <= 255,
                    kw >= 0,
            ;
            assert(c * kw >= 0) by (nonlinear_arith)
                requires
                    c >= 0,
                    kw >= 0,
            ;
        }
    }
}

proof fn lemma_kernel_total_bound(kernel: Seq<u8>, n: int)
    requires
        0 <= n <= kernel.len(),
    ensures
        0 <= kernel_total(kernel, n) <= 255 * n,
    decreases n,
{
    if n > 0 {
        lemma_kernel_total_bound(kernel, n - 1);
    }
}

/// The blurred pixel at `center` of the line `base + t * step`, `t` below
/// `len`, of `buf`.
fn blur_at(buf: &Vec<u32>, base: usize, step: usize, len: usize, center: usize, kernel: &Vec<u8>, total: u32) -> (r:
    u32)
    requires
        kernel@.len() == KERNEL_SIZE,
        total as int == kernel_total(kernel@, KERNEL_SIZE as int),
        total > 0,
        center < len,
        len <= i32::MAX,
        forall|t: int| 0 <= t < len ==> 0 <= #[trigger] (base + t * step) < buf@.len(),
    ensures
        r == blurred(buf@, base as int, step as int, len as int, center as int, kernel@, total as int),
{
    let mut x: u32 = 0;
    let mut y: u32 = 0;
    let mut z: u32 = 0;
    let mut w: u32 = 0;
    let mut k: usize = 0;
    let blen = buf.len();
    proof {
        lemma_kernel_total_bound(kernel@, KERNEL_SIZE as int);
    }
    while k < KERNEL_SIZE
        invariant
            k <= KERNEL_SIZE,
            blen == buf@.len(),
            kernel@.len() == KERNEL_SIZE,
            center < len,
            len <= i32::MAX,
            forall|t: int| 0 <= t < len ==> 0 <= #[trigger] (base + t * step) < buf@.len(),
            x == tap_sum(buf@, base as int, step as int, len as int, center as int, 24, kernel@, k as int),
            y == tap_sum(buf@, base as int, step as int, len as int, center as int, 16, kernel@, k as int),
            z == tap_sum(buf@, base as int, step as int, len as int, center as int, 8, kernel@, k as int),
            w == tap_sum(buf@, base as int, step as int, len as int, center as int, 0, kernel@, k as int),
        decreases KERNEL_SIZE - k,
    {
        proof {
            lemma_tap_sum_bound(buf@, base as int, step as int, len as int, center as int, 24, kernel@, k + 1);
            lemma_tap_sum_bound(buf@, base as int, step as int, len as int, center as int, 16, kernel@, k + 1);
            lemma_tap_sum_bound(buf@, base as int, step as int, len as int, center as int, 8, kernel@, k + 1);
            lemma_tap_sum_bound(buf@, base as int, step as int, len as int, center as int, 0, kernel@, k + 1);
            lemma_kernel_total_bound(kernel@, k + 1);
        }
        if center + k >= HALF && center + k - HALF < len {
            let t = center + k - HALF;
            proof {
                let ti = t as int;
                assert(0 <= base + ti * step < buf@.len());
                assert(0 <= ti * step) by (nonlinear_arith)
                    requires
                        ti >= 0,
                        step >= 0,
                ;
            }
            let p = buf[base + t * step];
            let kw = kernel[k] as u32;
            proof {
                lemma_channel_bound(p, 24);
                lemma_channel_bound(p, 16);
                lemma_channel_bound(p, 8);
                lemma_channel_bound(p, 0);
                assert(p >> 0u32 == p) by (bit_vector);
            }
            x = x + ((p >> 24) & 0xff) * kw;
            y = y + ((p >> 16) & 0xff) * kw;
            z = z + ((p >> 8) & 0xff) * kw;
            w = w + (p & 0xff) * kw;
        }
        k += 1;
    }
    (x / total) << 24 | (y / total) << 16 | (z / total) << 8 | (w / total)
}

/// Whether the rows of `height` pixels spaced `stride` words apart, each
/// `width` words long, lie inside a buffer of `len` words.
pub open spec fn rows_fit(len: int, stride: int, width: int, height: int) -> bool {
    &&& 0 < stride
    &&& width <= stride
    &&& (height == 0 || (height - 1) * stride + width <= len)
}

/// Whether word `p` of a buffer with rows `stride` words apart is a pixel
/// of the `width` x `height` image.
pub open spec fn in_image(p: int, stride: int, width: int, height: int) -> bool {
    p / stride < height && p % stride < width
}

/// What one pass gives for the pixel in row `i`, column `j`: a horizontal
/// pass blurs along the row near its ends and copies the rest; a vertical
/// pass blurs along the column near the top and bottom and copies the rest.
pub open spec fn pass_value(
    input: Seq<u32>,
    stride: int,
    width: int,
    height: int,
    radius: int,
    kernel: Seq<u8>,
    total: int,
    vertical: bool,
    i: int,
    j: int,
) -> u32 {
    if vertical {
        if is_inner(i, height, radius) {
            input[i * stride + j]
        } else {
            blurred(input, j, stride, height, i, kernel, total)
        }
    } else {
        if is_inner(j, width, radius) {
            input[i * stride + j]
        } else {
            blurred(input, i * stride, 1, width, j, kernel, total)
        }
    }
}

/// The image after one pass: its pixels are `pass_value`s, the other words
/// of `before` are kept.
pub open spec fn after_pass(
    before: Seq<u32>,
    out_stride: int,
    input: Seq<u32>,
    in_stride: int,
    width: int,
    height: int,
    radius: int,
    kernel: Seq<u8>,
    total: int,
    vertical: bool,
) -> Seq<u32> {
    Seq::new(
        before.len(),
        |p: int|
            if in_image(p, out_stride, width, height) {
                pass_value(input, in_stride, width, height, radius, kernel, total, vertical, p / out_stride, p % out_stride)
            } else {
                before[p]
            },
    )
}

proof fn lemma_index_fits(i: int, j: int, stride: int, width: int, height: int, len: int)
    requires
        rows_fit(len, stride, width, height),
        0 <= i < height,
        0 <= j < width,
    ensures
        0 <= i * stride + j < len,
        (i * stride + j) / stride == i,
        (i * stride + j) % stride == j,
{
    assert(0 <= i * stride <= (height - 1) * stride) by (nonlinear_arith)
        requires
            0 <= i <= height - 1,
            stride > 0,
    ;
    lemma_fundamental_div_mod_converse(i * stride + j, stride, i, j);
}

/// One pass of the blur over a `width` x `height` image: reads `input`
/// (rows `in_stride` words apart) and writes `output` (rows `out_stride`
/// words apart).
fn blur_pass(
    input: &Vec<u32>,
    in_stride: usize,
    output: &mut Vec<u32>,
    out_stride: usize,
    width: usize,
    height: usize,
    radius: i32,
    kernel: &Vec<u8>,
    total: u32,
    vertical: bool,
)
    requires
        kernel@.len() == KERNEL_SIZE,
        total as int == kernel_total(kernel@, KERNEL_SIZE as int),
        total > 0,
        width <= i32::MAX,
        height <= i32::MAX,
        rows_fit(input@.len() as int, in_stride as int, width as int, height as int),
        rows_fit(old(output)@.len() as int, out_stride as int, width as int, height as int),
    ensures
        final(output)@ == after_pass(
            old(output)@,
            out_stride as int,
            input@,
            in_stride as int,
            width as int,
            height as int,
            radius as int,
            kernel@,
            total as int,
            vertical,
        ),
{
    let ghost before = output@;
    let ghost target = after_pass(
        before,
        out_stride as int,
        input@,
        in_stride as int,
        width as int,
        height as int,
        radius as int,
        kernel@,
        total as int,
        vertical,
    );
    let olen = output.len();
    let ilen = input.len();
    let mut i: usize = 0;
    while i < height
        invariant
            i <= height,
            olen == before.len(),
            ilen == input@.len(),
            kernel@.len() == KERNEL_SIZE,
            total as int == kernel_total(kernel@, KERNEL_SIZE as int),
            total > 0,
            width <= i32::MAX,
            height <= i32::MAX,
            rows_fit(input@.len() as int, in_stride as int, width as int, height as int),
            rows_fit(before.len() as int, out_stride as int, width as int, height as int),
            output@.len() == before.len(),
            target.len() == before.len(),
            target == after_pass(
                before,
                out_stride as int,
                input@,
                in_stride as int,
                width as int,
                height as int,
                radius as int,
                kernel@,
                total as int,
                vertical,
            ),
            forall|p: int|
                0 <= p < before.len() ==> #[trigger] output@[p] == if p / (out_stride as int) < i && in_image(
                    p,
                    out_stride as int,
                    width as int,
                    height as int,
                ) {
                    target[p]
                } else {
                    before[p]
                },
        decreases height - i,
    {
        let mut j: usize = 0;
        while j < width
            invariant
                i < height,
                j <= width,
                olen == before.len(),
                ilen == input@.len(),
                kernel@.len() == KERNEL_SIZE,
                total as int == kernel_total(kernel@, KERNEL_SIZE as int),
                total > 0,
                width <= i32::MAX,
                height <= i32::MAX,
                rows_fit(input@.len() as int, in_stride as int, width as int, height as int),
                rows_fit(before.len() as int, out_stride as int, width as int, height as int),
                output@.len() == before.len(),
                target == after_pass(
                    before,
                    out_stride as int,
                    input@,
                    in_stride as int,
                    width as int,
                    height as int,
                    radius as int,
                    kernel@,
                    total as int,
                    vertical,
                ),
                forall|p: int|
                    0 <= p < before.len() ==> #[trigger] output@[p] == if in_image(
                        p,
                        out_stride as int,
                        width as int,
                        height as int,
                    ) && (p / (out_stride as int) < i || (p / (out_stride as int) == i && p % (
                    out_stride as int) < j)) {
                        target[p]
                    } else {
                        before[p]
                    },
            decreases width - j,
        {
            proof {
                lemma_index_fits(i as int, j as int, out_stride as int, width as int, height as int, before.len() as int);
                lemma_index_fits(i as int, j as int, in_stride as int, width as int, height as int, input@.len() as int);
            }
            let q = i * out_stride + j;
            let inner = if vertical {
                (radius as i64) < (i as i64) && (i as i64) < (height as i64) - (radius as i64)
            } else {
                (radius as i64) < (j as i64) && (j as i64) < (width as i64) - (radius as i64)
            };
            let v = if inner {
                input[i * in_stride + j]
            } else if vertical {
                proof {
                    assert forall|t: int| 0 <= t < height implies 0 <= #[trigger] (j + t * in_stride) < input@.len() by {
                        lemma_index_fits(t, j as int, in_stride as int, width as int, height as int, input@.len() as int);
                    }
                }
                blur_at(input, j, in_stride, height, i, kernel, total)
            } else {
                proof {
                    assert forall|t: int| 0 <= t < width implies 0 <= #[trigger] (i * in_stride + t * 1) < input@.len() by {
                        lemma_index_fits(i as int, t, in_stride as int, width as int, height as int, input@.len() as int);
                    }
                }
                blur_at(input, i * in_stride, 1, width, j, kernel, total)
            };
            proof {
                assert(in_image(q as int, out_stride as int, width as int, height as int));
                assert(target[q as int] == v);
            }
            output.set(q, v);
            proof {
                assert forall|p: int|
                    0 <= p < before.len() implies #[trigger] output@[p] == if in_image(
                        p,
                        out_stride as int,
                        width as int,
                        height as int,
                    ) && (p / (out_stride as int) < i || (p / (out_stride as int) == i && p % (
                    out_stride as int) < j + 1)) {
                        target[p]
                    } else {
                        before[p]
                    } by {
                    if p != q {
                        if p / (out_stride as int) == i && p % (out_stride as int) == j {
                            vstd::arithmetic::div_mod::lemma_fundamental_div_mod(p, out_stride as int);
                            assert(p == (out_stride as int) * i + j);
                            assert(false) by (nonlinear_arith)
                                requires
                                    p == (out_stride as int) * (i as int) + j,
                                    p != (i as int) * (out_stride as int) + j,
                            ;
                        }
                    }
                }
            }
            j += 1;
        }
        proof {
            assert forall|p: int|
                0 <= p < before.len() implies #[trigger] output@[p] == if p / (out_stride as int) < i + 1
                && in_image(p, out_stride as int, width as int, height as int) {
                    target[p]
                } else {
                    before[p]
                } by {}
        }
        i += 1;
    }
    proof {
        assert(output@ =~= target);
    }
}

/// The pixel layouts the blur tells apart.
#[derive(Debug, Clone, Copy, PartialEq, Eq, Structural)]
pub enum SurfaceFormat {
    /// One bit per pixel: not blurred.
    A1,
    /// One byte per pixel: blurred as 32-bit words, four pixels each.
    A8,
    /// Four bytes per pixel.
    Other,
}

/// How many 32-bit words of each row the blur works on, for a surface
/// `width` pixels wide; `None` when the surface is not blurred.
pub fn blur_words(format: SurfaceFormat, width: usize) -> (r: Option<usize>)
    ensures
        r == match format {
            SurfaceFormat::A1 => None,
            SurfaceFormat::A8 => Some((width / 4) as usize),
            SurfaceFormat::Other => Some(width),
        },
{
    match format {
        SurfaceFormat::A1 => None,
        SurfaceFormat::A8 => Some(width / 4),
        SurfaceFormat::Other => Some(width),
    }
}

/// The sum of the kernel's weights.
fn total_of(kernel: &Vec<u8>) -> (r: u32)
    requires
        kernel@.len() == KERNEL_SIZE,
    ensures
        r as int == kernel_total(kernel@, KERNEL_SIZE as int),
{
    let mut a: u32 = 0;
    let mut i: usize = 0;
    while i < KERNEL_SIZE
        invariant
            i <= KERNEL_SIZE,
            kernel@.len() == KERNEL_SIZE,
            a as int == kernel_total(kernel@, i as int),
            a <= 255 * i,
        decreases KERNEL_SIZE - i,
    {
        a = a + kernel[i] as u32;
        i += 1;
    }
    a
}

/// Blurs the borders of a `width` x `height` image of 32-bit words held in
/// `surface` (rows `stride` words apart), with the 17 weights of `kernel`,
/// using `temp` (rows `temp_stride` words apart) as scratch. Pixels within
/// `radius` of the left or right end of their row are replaced by the
/// weighted average of their row neighbours, each channel on its own, into
/// `temp` (the others are copied); then pixels of `temp` within `radius` of
/// the top or bottom are averaged over their column neighbours back into
/// `surface` (the others are copied back). Neighbours outside the image
/// count nothing, and every average is taken over the whole kernel's sum.
pub fn blur_image_surface(
    surface: &mut Vec<u32>,
    stride: usize,
    temp: &mut Vec<u32>,
    temp_stride: usize,
    width: usize,
    height: usize,
    radius: i32,
    kernel: &Vec<u8>,
)
    requires
        kernel@.len() == KERNEL_SIZE,
        kernel_total(kernel@, KERNEL_SIZE as int) > 0,
        width <= i32::MAX,
        height <= i32::MAX,
        width - radius <= i32::MAX,
        height - radius <= i32::MAX,
        rows_fit(old(surface)@.len() as int, stride as int, width as int, height as int),
        rows_fit(old(temp)@.len() as int, temp_stride as int, width as int, height as int),
    ensures
        final(temp)@ == after_pass(
            old(temp)@,
            temp_stride as int,
            old(surface)@,
            stride as int,
            width as int,
            height as int,
            radius as int,
            kernel@,
            kernel_total(kernel@, KERNEL_SIZE as int),
            false,
        ),
        final(surface)@ == after_pass(
            old(surface)@,
            stride as int,
            final(temp)@,
            temp_stride as int,
            width as int,
            height as int,
            radius as int,
            kernel@,
            kernel_total(kernel@, KERNEL_SIZE as int),
            true,
        ),
{
    let total = total_of(kernel);
    blur_pass(surface, stride, temp, temp_stride, width, height, radius, kernel, total, false);
    blur_pass(temp, temp_stride, surface, stride, width, height, radius, kernel, total, true);
}

} // verus!
