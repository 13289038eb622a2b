//! Operations on 1-bit frames: packing grayscale pixels MSB-first,
//! unpacking, inverting.
use vstd::prelude::*;

use crate::firmware::DisplaySpec;

verus! {

/// Grayscale level above which a pixel packs to 1 (white).
pub const THRESHOLD: u8 = 128;

/// Bit `i` (0 = most significant) of a byte.
pub open spec fn byte_bit(b: u8, i: int) -> bool {
    ((b >> ((7 - i) as u8)) & 1u8) == 1u8
}

/// Pixel `p` of a packed frame: bit `p % 8` of byte `p / 8`, MSB first.
pub open spec fn pixel(data: Seq<u8>, p: int) -> bool {
    byte_bit(data[p / 8], p % 8)
}

/// A grayscale level after thresholding: 255 above `THRESHOLD`, else 0.
pub open spec fn thresholded(v: u8) -> u8 {
    if v > THRESHOLD {
        255
    } else {
        0
    }
}

/// `packed` holds one bit per grayscale pixel, MSB first, 1 where the pixel
/// is above `THRESHOLD`; the bits past the last pixel are 0.
pub open spec fn is_packing_of(pixels: Seq<u8>, packed: Seq<u8>) -> bool {
    &&& packed.len() == (pixels.len() + 7) / 8
    &&& forall|k: int, i: int|
        0 <= k < packed.len() && 0 <= i < 8 ==> #[trigger] byte_bit(packed[k], i) == (k * 8 + i
            < pixels.len() && pixels[k * 8 + i] > THRESHOLD)
}

/// Each bit of `packed`, MSB first, as a grayscale byte: 255 for 1, 0 for 0.
pub open spec fn is_unpacking_of(packed: Seq<u8>, pixels: Seq<u8>) -> bool {
    &&& pixels.len() == packed.len() * 8
    &&& forall|k: int, i: int|
        0 <= k < packed.len() && 0 <= i < 8 ==> #[trigger] pixels[k * 8 + i] == if byte_bit(
            packed[k],
            i,
        ) {
            255u8
        } else {
            0u8
        }
}

/// Packing grayscale pixels and unpacking the result gives back every pixel
/// thresholded: 255 where it was above `THRESHOLD`, 0 elsewhere. When the
/// pixel count is a multiple of 8 nothing else comes back.
pub proof fn pack_unpack_round_trip(pixels: Seq<u8>, packed: Seq<u8>, unpacked: Seq<u8>)
    requires
        is_packing_of(pixels, packed),
        is_unpacking_of(packed, unpacked),
    ensures
        unpacked.len() >= pixels.len(),
        forall|p: int| 0 <= p < pixels.len() ==> #[trigger] unpacked[p] == thresholded(pixels[p]),
        pixels.len() % 8 == 0 ==> unpacked == pixels.map_values(|v: u8| thresholded(v)),
{
    assert forall|p: int| 0 <= p < pixels.len() implies #[trigger] unpacked[p] == thresholded(
        pixels[p],
    ) by {
        let k = p / 8;
        let i = p % 8;
        assert(p == k * 8 + i);
        assert(0 <= k < packed.len());
        assert(byte_bit(packed[k], i) == (pixels[k * 8 + i] > THRESHOLD));
        assert(unpacked[k * 8 + i] == if byte_bit(packed[k], i) {
            255u8
        } else {
            0u8
        });
    }
    if pixels.len() % 8 == 0 {
        assert(unpacked =~= pixels.map_values(|v: u8| thresholded(v)));
    }
}

proof fn lemma_set_bit(b: u8, i: u8)
    requires
        i < 8,
    ensures
        forall|j: int|
            0 <= j < 8 ==> #[trigger] byte_bit(b | (1u8 << ((7 - i) as u8)), j) == (j == i as int
                || byte_bit(b, j)),
{
    assert(forall|b: u8, i: u8, j: u8|
        #![trigger (b | (1u8 << ((7u8 - i) as u8))) >> ((7u8 - j) as u8)]
        i < 8 && j < 8 ==> (((b | (1u8 << ((7u8 - i) as u8))) >> ((7u8 - j) as u8)) & 1u8 == 1u8)
            == (j == i || (b >> ((7u8 - j) as u8)) & 1u8 == 1u8)) by (bit_vector);
    assert forall|j: int| 0 <= j < 8 implies #[trigger] byte_bit(b | (1u8 << ((7 - i) as u8)), j)
        == (j == i as int || byte_bit(b, j)) by {
        let ju = j as u8;
        assert((7 - j) as u8 == (7u8 - ju) as u8);
        assert((7 - i) as u8 == (7u8 - i) as u8);
    }
}

proof fn lemma_zero_bits()
    ensures
        forall|j: int| 0 <= j < 8 ==> !#[trigger] byte_bit(0u8, j),
{
    assert(forall|j: u8| #![trigger 0u8 >> j] j < 8 ==> ((0u8 >> j) & 1u8) != 1u8) by (bit_vector);
    assert forall|j: int| 0 <= j < 8 implies !#[trigger] byte_bit(0u8, j) by {
        assert(((0u8 >> ((7 - j) as u8)) & 1u8) != 1u8);
    }
}

proof fn lemma_not_bits(b: u8)
    ensures
        forall|j: int| 0 <= j < 8 ==> #[trigger] byte_bit(!b, j) == !byte_bit(b, j),
{
    assert(forall|b: u8, j: u8|
        #![trigger (!b) >> j]
        j < 8 ==> (((!b) >> j) & 1u8 == 1u8) == !((b >> j) & 1u8 == 1u8)) by (bit_vector);
    assert forall|j: int| 0 <= j < 8 implies #[trigger] byte_bit(!b, j) == !byte_bit(b, j) by {
        let s = (7 - j) as u8;
        assert(s < 8);
        assert((((!b) >> s) & 1u8 == 1u8) == !((b >> s) & 1u8 == 1u8));
    }
}

/// Pack up to eight grayscale pixels `data[start..start + 8]` (fewer at the
/// end) into one byte, MSB first.
fn pack_byte(data: &[u8], start: usize) -> (r: u8)
    requires
        start < data@.len(),
    ensures
        forall|i: int|
            0 <= i < 8 ==> #[trigger] byte_bit(r, i) == (start + i < data@.len() && data@[start
                + i] > THRESHOLD),
{
    let mut byte: u8 = 0;
    let mut i: u8 = 0;
    proof {
        lemma_zero_bits();
    }
    while i < 8
        invariant
            i <= 8,
            start < data@.len(),
            forall|j: int|
                0 <= j < 8 ==> #[trigger] byte_bit(byte, j) == (j < i && start + j < data@.len()
                    && data@[start + j] > THRESHOLD),
        decreases 8 - i,
    {
        if (i as usize) < data.len() - start && data[start + i as usize] > THRESHOLD {
            proof {
                lemma_set_bit(byte, i);
            }
            byte = byte | (1u8 << (7 - i));
        }
        i = i + 1;
    }
    byte
}

/// Pack grayscale bytes into 1-bit format, MSB first: a pixel above
/// `THRESHOLD` becomes 1.
pub fn pack_grayscale(data: &[u8]) -> (r: Vec<u8>)
    ensures
        is_packing_of(data@, r@),
{
    let n = data.len();
    let mut output: Vec<u8> = Vec::new();
    let mut start: usize = 0;
    while start < n
        invariant
            n == data@.len(),
            start == output@.len() * 8,
            start <= n,
            forall|k: int, i: int|
                0 <= k < output@.len() && 0 <= i < 8 ==> #[trigger] byte_bit(output@[k], i)
                    == (k * 8 + i < n && data@[k * 8 + i] > THRESHOLD),
        decreases n - start,
    {
        let byte = pack_byte(data, start);
        let ghost k0 = output@.len() as int;
        output.push(byte);
        proof {
            assert(output@[k0] == byte);
            assert forall|k: int, i: int|
                0 <= k < output@.len() && 0 <= i < 8 implies #[trigger] byte_bit(
                output@[k],
                i,
            ) == (k * 8 + i < n && data@[k * 8 + i] > THRESHOLD) by {
                if k == k0 {
                    assert(k * 8 + i == start + i);
                    assert(byte_bit(byte, i) == (start + i < data@.len() && data@[start + i]
                        > THRESHOLD));
                } else {
                }
            }
        }
        if n - start <= 8 {
            proof {
                assert(output@.len() == (n + 7) / 8);
            }
            return output;
        }
        start = start + 8;
    }
    proof {
        assert(output@.len() == (n + 7) / 8);
    }
    output
}

proof fn lemma_clear_bit(b: u8, i: u8)
    requires
        i < 8,
    ensures
        forall|j: int|
            0 <= j < 8 ==> #[trigger] byte_bit(b & !(1u8 << ((7 - i) as u8)), j) == (j != i as int
                && byte_bit(b, j)),
{
    assert(forall|b: u8, i: u8, j: u8|
        #![trigger (b & !(1u8 << ((7u8 - i) as u8))) >> ((7u8 - j) as u8)]
        i < 8 && j < 8 ==> (((b & !(1u8 << ((7u8 - i) as u8))) >> ((7u8 - j) as u8)) & 1u8 == 1u8)
            == (j != i && (b >> ((7u8 - j) as u8)) & 1u8 == 1u8)) by (bit_vector);
    assert forall|j: int| 0 <= j < 8 implies #[trigger] byte_bit(b & !(1u8 << ((7 - i) as u8)), j)
        == (j != i as int && byte_bit(b, j)) by {
        let ju = j as u8;
        assert((7 - j) as u8 == (7u8 - ju) as u8);
        assert((7 - i) as u8 == (7u8 - i) as u8);
    }
}

/// `after` is `before` with pixel `p` set to `value` and every other pixel
/// kept.
pub open spec fn with_pixel(before: Seq<u8>, after: Seq<u8>, p: int, value: bool) -> bool {
    &&& after.len() == before.len()
    &&& forall|k: int, i: int|
        0 <= k < after.len() && 0 <= i < 8 ==> #[trigger] byte_bit(after[k], i) == if k * 8 + i
            == p {
            value
        } else {
            byte_bit(before[k], i)
        }
}

/// Set bit `bit_idx` (0 = most significant) of byte `byte_idx` of a packed
/// buffer: pixel `byte_idx * 8 + bit_idx`.
pub fn write_pixel(buffer: &mut [u8], byte_idx: usize, bit_idx: u8, value: bool)
    requires
        byte_idx < old(buffer)@.len(),
        bit_idx < 8,
    ensures
        with_pixel(old(buffer)@, final(buffer)@, byte_idx * 8 + bit_idx, value),
{
    let ghost p = byte_idx * 8 + bit_idx;
    let b = buffer[byte_idx];
    proof {
        lemma_set_bit(b, bit_idx);
        lemma_clear_bit(b, bit_idx);
    }
    if value {
        buffer[byte_idx] = b | (1u8 << (7 - bit_idx));
    } else {
        buffer[byte_idx] = b & !(1u8 << (7 - bit_idx));
    }
    proof {
        assert forall|k: int, i: int|
            0 <= k < buffer@.len() && 0 <= i < 8 implies #[trigger] byte_bit(buffer@[k], i)
            == if k * 8 + i == p {
            value
        } else {
            byte_bit(old(buffer)@[k], i)
        } by {
            if k == byte_idx {
                assert(k * 8 + i == p <==> i == bit_idx);
            } else {
                assert(k * 8 + i != p);
            }
        }
    }
}

/// Pixel `q` of a `w`-wide frame lies in the rectangle of columns
/// `[x0, x1)` and rows `[y0, y1)`.
pub open spec fn in_rect(w: int, q: int, x0: int, x1: int, y0: int, y1: int) -> bool {
    &&& w > 0
    &&& x0 <= q % w < x1
    &&& y0 <= q / w < y1
}

/// `after` is `before` with every pixel of a `w`-wide frame that lies in
/// columns `[x0, x1)` and rows `[y0, y1)` set to `value`, and every other
/// pixel kept.
pub open spec fn with_rect(
    before: Seq<u8>,
    after: Seq<u8>,
    w: int,
    x0: int,
    x1: int,
    y0: int,
    y1: int,
    value: bool,
) -> bool {
    &&& after.len() == before.len()
    &&& forall|k: int, i: int|
        0 <= k < after.len() && 0 <= i < 8 ==> #[trigger] byte_bit(after[k], i) == if in_rect(
            w,
            k * 8 + i,
            x0,
            x1,
            y0,
            y1,
        ) {
            value
        } else {
            byte_bit(before[k], i)
        }
}

/// The smaller of two numbers.
pub open spec fn min_of(a: int, b: int) -> int {
    if a < b {
        a
    } else {
        b
    }
}

/// Fill columns `[x0, min(x0 + w, width))` of rows `[y0, min(y0 + h,
/// height))` of a `width`-wide packed frame; pixels past the end of the buffer
/// are ignored.
fn fill_rect(
    buffer: &mut [u8],
    width: u32,
    height: u32,
    x0: u64,
    y0: u64,
    w: u64,
    h: u64,
    value: bool,
)
    requires
        width > 0,
        x0 <= 0x2_0000_0000u64,
        y0 <= 0x2_0000_0000u64,
        w <= 0x2_0000_0000u64,
        h <= 0x2_0000_0000u64,
    ensures
        with_rect(
            old(buffer)@,
            final(buffer)@,
            width as int,
            x0 as int,
            min_of(x0 + w, width as int),
            y0 as int,
            min_of(y0 + h, height as int),
            value,
        ),
{
    let x_end: u64 = if x0 + w < width as u64 {
        x0 + w
    } else {
        width as u64
    };
    let y_end: u64 = if y0 + h < height as u64 {
        y0 + h
    } else {
        height as u64
    };
    let ghost orig = buffer@;
    let ghost wi = width as int;
    let mut py: u64 = y0;
    while py < y_end
        invariant
            width > 0,
            wi == width as int,
            y0 <= py,
            py <= y_end || py == y0,
            y_end <= height,
            x_end <= width,
            buffer@.len() == orig.len(),
            forall|k: int, i: int|
                0 <= k < buffer@.len() && 0 <= i < 8 ==> #[trigger] byte_bit(buffer@[k], i) == if in_rect(
                    wi,
                    k * 8 + i,
                    x0 as int,
                    x_end as int,
                    y0 as int,
                    py as int,
                ) {
                    value
                } else {
                    byte_bit(orig[k], i)
                },
        decreases y_end - py,
    {
        let mut px: u64 = x0;
        while px < x_end
            invariant
                width > 0,
                wi == width as int,
                y0 <= py < y_end,
                y_end <= height,
                x0 <= px,
                px <= x_end || px == x0,
                x_end <= width,
                buffer@.len() == orig.len(),
                forall|k: int, i: int|
                    0 <= k < buffer@.len() && 0 <= i < 8 ==> #[trigger] byte_bit(buffer@[k], i)
                        == if in_rect(wi, k * 8 + i, x0 as int, x_end as int, y0 as int, py as int)
                        || ((k * 8 + i) / wi == py && x0 <= (k * 8 + i) % wi < px) {
                        value
                    } else {
                        byte_bit(orig[k], i)
                    },
            decreases x_end - px,
        {
            assert(py * (width as u64) + px <= 0xffff_ffffu64 * 0xffff_ffffu64 + 0xffff_ffffu64)
                by (nonlinear_arith)
                requires
                    py < 0xffff_ffffu64,
                    width <= 0xffff_ffffu64,
                    px < 0xffff_ffffu64,
            ;
            let q = py * (width as u64) + px;
            if q / 8 < buffer.len() as u64 {
                let ghost before = buffer@;
                write_pixel(buffer, (q / 8) as usize, (q % 8) as u8, value);
                proof {
                    assert forall|k: int, i: int|
                        0 <= k < buffer@.len() && 0 <= i < 8 implies #[trigger] byte_bit(
                        buffer@[k],
                        i,
                    ) == if in_rect(wi, k * 8 + i, x0 as int, x_end as int, y0 as int, py as int)
                        || ((k * 8 + i) / wi == py && x0 <= (k * 8 + i) % wi < px + 1) {
                        value
                    } else {
                        byte_bit(orig[k], i)
                    } by {
                        let pp = k * 8 + i;
                        vstd::arithmetic::div_mod::lemma_fundamental_div_mod(pp, wi);
                        if pp == q {
                            vstd::arithmetic::div_mod::lemma_fundamental_div_mod_converse(
                                pp,
                                wi,
                                py as int,
                                px as int,
                            );
                        }
                        if pp / wi == py && pp % wi == px {
                            assert(pp == wi * py + px);
                            assert(pp == q) by (nonlinear_arith)
                                requires
                                    pp == wi * py + px,
                                    q == py * wi + px,
                            ;
                        }
                        assert((q / 8) * 8 + (q % 8) == q);
                        assert(byte_bit(buffer@[k], i) == if k * 8 + i == (q / 8) * 8 + (q % 8) {
                            value
                        } else {
                            byte_bit(before[k], i)
                        });
                    }
                }
            } else {
                proof {
                    assert forall|k: int, i: int|
                        0 <= k < buffer@.len() && 0 <= i < 8 implies #[trigger] byte_bit(
                        buffer@[k],
                        i,
                    ) == if in_rect(wi, k * 8 + i, x0 as int, x_end as int, y0 as int, py as int)
                        || ((k * 8 + i) / wi == py && x0 <= (k * 8 + i) % wi < px + 1) {
                        value
                    } else {
                        byte_bit(orig[k], i)
                    } by {
                        let pp = k * 8 + i;
                        vstd::arithmetic::div_mod::lemma_fundamental_div_mod(pp, wi);
                        if pp / wi == py && pp % wi == px {
                            assert(pp == q) by (nonlinear_arith)
                                requires
                                    pp == wi * (pp / wi) + pp % wi,
                                    pp / wi == py,
                                    pp % wi == px,
                                    q == py * wi + px,
                            ;
                            assert(false);
                        }
                    }
                }
            }
            px = px + 1;
        }
        proof {
            assert forall|k: int, i: int|
                0 <= k < buffer@.len() && 0 <= i < 8 implies #[trigger] byte_bit(buffer@[k], i)
                == if in_rect(wi, k * 8 + i, x0 as int, x_end as int, y0 as int, py + 1) {
                value
            } else {
                byte_bit(orig[k], i)
            } by {
                let pp = k * 8 + i;
                assert(px == x_end || x_end <= x0);
            }
        }
        py = py + 1;
    }
    proof {
        assert(py == y_end || y_end <= y0);
        assert forall|k: int, i: int|
            0 <= k < buffer@.len() && 0 <= i < 8 implies #[trigger] byte_bit(buffer@[k], i)
            == if in_rect(wi, k * 8 + i, x0 as int, x_end as int, y0 as int, y_end as int) {
            value
        } else {
            byte_bit(orig[k], i)
        } by {
            if y_end <= y0 {
                assert(!in_rect(wi, k * 8 + i, x0 as int, x_end as int, y0 as int, py as int));
            }
        }
    }
}

/// Pixel `q` of a `fw` x `fh` frame lies in the clipped rectangle with corner
/// (`x`, `y`) and size `w` x `h`.
pub open spec fn in_clipped(fw: int, fh: int, q: int, x: int, y: int, w: int, h: int) -> bool {
    in_rect(fw, q, x, min_of(x + w, fw), y, min_of(y + h, fh))
}

/// Pixel `q` lies on the outline of thickness `t` of the rectangle with corner
/// (`x`, `y`) and size `w` x `h`: the top and left bands, and the bottom and
/// right bands where the rectangle is larger than the thickness.
pub open spec fn on_outline(fw: int, fh: int, q: int, x: int, y: int, w: int, h: int, t: int) -> bool {
    ||| in_clipped(fw, fh, q, x, y, w, t)
    ||| (y + h > t && in_clipped(fw, fh, q, x, y + h - t, w, t))
    ||| in_clipped(fw, fh, q, x, y, t, h)
    ||| (x + w > t && in_clipped(fw, fh, q, x + w - t, y, t, h))
}

/// `after` is `before` with the pixels that `covered` selects set to `value`.
pub open spec fn with_pixels(before: Seq<u8>, after: Seq<u8>, covered: spec_fn(int) -> bool, value: bool) -> bool {
    &&& after.len() == before.len()
    &&& forall|k: int, i: int|
        0 <= k < after.len() && 0 <= i < 8 ==> #[trigger] byte_bit(after[k], i) == if covered(
            k * 8 + i,
        ) {
            value
        } else {
            byte_bit(before[k], i)
        }
}

/// Drawing of filled rectangles and lines on packed `width` x `height` frames.
pub struct ShapeDrawer {
    width: u32,
    height: u32,
}

impl ShapeDrawer {
    /// Frame width in pixels.
    pub closed spec fn width(&self) -> u32 {
        self.width
    }

    /// Frame height in pixels.
    pub closed spec fn height(&self) -> u32 {
        self.height
    }

    /// Create a new shape drawer for the given dimensions.
    pub fn new(width: u32, height: u32) -> (r: Self)
        ensures
            r.width() == width,
            r.height() == height,
    {
        ShapeDrawer { width, height }
    }

    /// Set pixel (`x`, `y`); a pixel outside the frame or past the end of the
    /// buffer is ignored.
    pub fn set_pixel(&self, buffer: &mut [u8], x: u32, y: u32, value: bool)
        ensures
            if x < self.width() && y < self.height() && (y * self.width() + x) / 8
                < old(buffer)@.len() {
                with_pixel(old(buffer)@, final(buffer)@, y * self.width() + x, value)
            } else {
                final(buffer)@ == old(buffer)@
            },
    {
        if x >= self.width || y >= self.height {
            return;
        }
        let w = self.width as u64;
        assert((y as u64) * w + (x as u64) <= 0xffff_ffffu64 * 0xffff_ffffu64 + 0xffff_ffffu64)
            by (nonlinear_arith)
            requires
                y <= 0xffff_ffffu64,
                w <= 0xffff_ffffu64,
                x <= 0xffff_ffffu64,
        ;
        let pixel_idx = (y as u64) * w + (x as u64);
        if pixel_idx / 8 < buffer.len() as u64 {
            write_pixel(buffer, (pixel_idx / 8) as usize, (pixel_idx % 8) as u8, value);
        }
    }

    /// Fill the rectangle with corner (`x`, `y`) and size `width` x `height`,
    /// clipped to the frame.
    pub fn draw_rect_filled(
        &self,
        buffer: &mut [u8],
        x: u32,
        y: u32,
        width: u32,
        height: u32,
        value: bool,
    )
        ensures
            with_pixels(
                old(buffer)@,
                final(buffer)@,
                |q: int| in_clipped(self.width() as int, self.height() as int, q, x as int, y as int, width as int, height as int),
                value,
            ),
    {
        self.fill(buffer, x as u64, y as u64, width as u64, height as u64, value);
    }

    fn fill(&self, buffer: &mut [u8], x: u64, y: u64, w: u64, h: u64, value: bool)
        requires
            x <= 0x2_0000_0000u64,
            y <= 0x2_0000_0000u64,
            w <= 0x2_0000_0000u64,
            h <= 0x2_0000_0000u64,
        ensures
            with_pixels(
                old(buffer)@,
                final(buffer)@,
                |q: int| in_clipped(self.width() as int, self.height() as int, q, x as int, y as int, w as int, h as int),
                value,
            ),
    {
        if self.width == 0 {
            return;
        }
        fill_rect(buffer, self.width, self.height, x, y, w, h, value);
    }

    /// Draw the outline of thickness `thickness` of the rectangle with corner
    /// (`x`, `y`) and size `width` x `height`: top, bottom, left and right
    /// bands, clipped to the frame.
    pub fn draw_rect_outline(
        &self,
        buffer: &mut [u8],
        x: u32,
        y: u32,
        width: u32,
        height: u32,
        thickness: u32,
        value: bool,
    )
        ensures
            with_pixels(
                old(buffer)@,
                final(buffer)@,
                |q: int| on_outline(self.width() as int, self.height() as int, q, x as int, y as int, width as int, height as int, thickness as int),
                value,
            ),
    {
        let ghost b0 = buffer@;
        let ghost fw = self.width() as int;
        let ghost fh = self.height() as int;
        let x64 = x as u64;
        let y64 = y as u64;
        let w64 = width as u64;
        let h64 = height as u64;
        let t64 = thickness as u64;
        self.fill(buffer, x64, y64, w64, t64, value);
        let ghost b1 = buffer@;
        if y64 + h64 > t64 {
            self.fill(buffer, x64, y64 + h64 - t64, w64, t64, value);
        }
        let ghost b2 = buffer@;
        self.fill(buffer, x64, y64, t64, h64, value);
        let ghost b3 = buffer@;
        if x64 + w64 > t64 {
            self.fill(buffer, x64 + w64 - t64, y64, t64, h64, value);
        }
        proof {
            assert forall|k: int, i: int|
                0 <= k < buffer@.len() && 0 <= i < 8 implies #[trigger] byte_bit(buffer@[k], i)
                == if on_outline(fw, fh, k * 8 + i, x as int, y as int, width as int, height as int, thickness as int) {
                value
            } else {
                byte_bit(b0[k], i)
            } by {
                assert(byte_bit(b1[k], i) == if in_clipped(fw, fh, k * 8 + i, x as int, y as int, width as int, thickness as int) {
                    value
                } else {
                    byte_bit(b0[k], i)
                });
                assert(byte_bit(b3[k], i) == if in_clipped(fw, fh, k * 8 + i, x as int, y as int, thickness as int, height as int) {
                    value
                } else {
                    byte_bit(b2[k], i)
                });
            }
        }
    }

    /// Draw a horizontal line of `length` pixels starting at (`x`, `y`),
    /// clipped to the frame.
    pub fn draw_line_horizontal(&self, buffer: &mut [u8], x: u32, y: u32, length: u32, value: bool)
        ensures
            with_pixels(
                old(buffer)@,
                final(buffer)@,
                |q: int| in_clipped(self.width() as int, self.height() as int, q, x as int, y as int, length as int, 1),
                value,
            ),
    {
        self.fill(buffer, x as u64, y as u64, length as u64, 1, value);
    }

    /// Draw a vertical line of `length` pixels starting at (`x`, `y`),
    /// clipped to the frame.
    pub fn draw_line_vertical(&self, buffer: &mut [u8], x: u32, y: u32, length: u32, value: bool)
        ensures
            with_pixels(
                old(buffer)@,
                final(buffer)@,
                |q: int| in_clipped(self.width() as int, self.height() as int, q, x as int, y as int, 1, length as int),
                value,
            ),
    {
        self.fill(buffer, x as u64, y as u64, 1, length as u64, value);
    }
}

/// A rearrangement of the pixels of a `width` x `height` frame.
#[derive(Debug, Clone, Copy, PartialEq, Eq, Structural)]
pub enum Remap {
    /// Rotate 90 degrees clockwise (the result is `height` wide).
    Rotate90,
    /// Mirror left-right.
    FlipHorizontal,
    /// Mirror top-bottom.
    FlipVertical,
}

/// Width of the result of a rearrangement.
pub open spec fn remap_width(m: Remap, w: int, h: int) -> int {
    match m {
        Remap::Rotate90 => h,
        _ => w,
    }
}

/// The input pixel that lands on pixel `q` (row-major) of the result.
pub open spec fn remap_source(m: Remap, w: int, h: int, q: int) -> int {
    let nw = remap_width(m, w, h);
    let dx = q % nw;
    let dy = q / nw;
    match m {
        Remap::Rotate90 => (h - 1 - dx) * w + dy,
        Remap::FlipHorizontal => dy * w + (w - 1 - dx),
        Remap::FlipVertical => (h - 1 - dy) * w + dx,
    }
}

/// `out` is the rearrangement of the packed `w` x `h` frame `data`: each of
/// its pixels is the input pixel that lands there.
pub open spec fn is_remap_of(m: Remap, w: int, h: int, data: Seq<u8>, out: Seq<u8>) -> bool {
    &&& out.len() == (w * h) / 8
    &&& forall|q: int| 0 <= q < w * h ==> #[trigger] pixel(out, q) == pixel(data, remap_source(m, w, h, q))
}

proof fn lemma_source_in_frame(m: Remap, w: int, h: int, q: int)
    requires
        w > 0,
        h > 0,
        0 <= q < w * h,
    ensures
        0 <= remap_source(m, w, h, q) < w * h,
        0 <= q % remap_width(m, w, h) < remap_width(m, w, h),
        0 <= q / remap_width(m, w, h) < (w * h) / remap_width(m, w, h),
        m is Rotate90 ==> q / remap_width(m, w, h) < w,
        !(m is Rotate90) ==> q / remap_width(m, w, h) < h,
{
    let nw = remap_width(m, w, h);
    let dx = q % nw;
    let dy = q / nw;
    vstd::arithmetic::div_mod::lemma_fundamental_div_mod(q, nw);
    assert(0 <= dx < nw);
    assert(nw > 0);
    if m is Rotate90 {
        assert((w * h) / nw == w) by {
            vstd::arithmetic::div_mod::lemma_div_by_multiple(w, h);
            assert(w * h == h * w) by (nonlinear_arith);
        }
    } else {
        assert((w * h) / nw == h) by {
            vstd::arithmetic::div_mod::lemma_div_by_multiple(h, w);
            assert(w * h == h * w) by (nonlinear_arith);
        }
    }
    match m {
        Remap::Rotate90 => {
            assert(0 <= dy < w) by (nonlinear_arith)
                requires
                    q == nw * dy + dx,
                    0 <= dx < nw,
                    nw == h,
                    0 <= q < w * h,
            ;
            assert(0 <= (h - 1 - dx) * w + dy < w * h) by (nonlinear_arith)
                requires
                    0 <= dx < h,
                    0 <= dy < w,
            ;
        },
        Remap::FlipHorizontal => {
            assert(0 <= dy < h) by (nonlinear_arith)
                requires
                    q == nw * dy + dx,
                    0 <= dx < nw,
                    nw == w,
                    0 <= q < w * h,
            ;
            assert(0 <= dy * w + (w - 1 - dx) < w * h) by (nonlinear_arith)
                requires
                    0 <= dx < w,
                    0 <= dy < h,
            ;
        },
        Remap::FlipVertical => {
            assert(0 <= dy < h) by (nonlinear_arith)
                requires
                    q == nw * dy + dx,
                    0 <= dx < nw,
                    nw == w,
                    0 <= q < w * h,
            ;
            assert(0 <= (h - 1 - dy) * w + dx < w * h) by (nonlinear_arith)
                requires
                    0 <= dx < w,
                    0 <= dy < h,
            ;
        },
    }
}

/// Rearrange the pixels of a packed `width` x `height` frame.
pub fn remap_1bit(m: Remap, data: &[u8], width: u32, height: u32) -> (r: Vec<u8>)
    requires
        (width * height) % 8 == 0,
        data@.len() * 8 >= width * height,
    ensures
        is_remap_of(m, width as int, height as int, data@, r@),
{
    let ghost wi = width as int;
    let ghost hi = height as int;
    let w = width as u64;
    let h = height as u64;
    assert(w * h <= 0xffff_ffffu64 * 0xffff_ffffu64) by (nonlinear_arith)
        requires
            w <= 0xffff_ffffu64,
            h <= 0xffff_ffffu64,
    ;
    let n: u64 = w * h;
    let nbytes: u64 = n / 8;
    let nw: u64 = match m {
        Remap::Rotate90 => h,
        _ => w,
    };
    let mut out: Vec<u8> = Vec::new();
    let mut k: u64 = 0;
    while k < nbytes
        invariant
            wi == width as int,
            hi == height as int,
            w == width as u64,
            h == height as u64,
            n == wi * hi,
            n % 8 == 0,
            nbytes == n / 8,
            nw == remap_width(m, wi, hi),
            data@.len() * 8 >= n,
            k <= nbytes,
            out@.len() == k,
            forall|kk: int, i: int|
                0 <= kk < k && 0 <= i < 8 ==> #[trigger] byte_bit(out@[kk], i) == pixel(
                    data@,
                    remap_source(m, wi, hi, kk * 8 + i),
                ),
        decreases nbytes - k,
    {
        let mut byte: u8 = 0;
        let mut i: u8 = 0;
        proof {
            lemma_zero_bits();
        }
        while i < 8
            invariant
                wi == width as int,
                hi == height as int,
                w == width as u64,
                h == height as u64,
                n == wi * hi,
                nbytes == n / 8,
                nw == remap_width(m, wi, hi),
                data@.len() * 8 >= n,
                k < nbytes,
                i <= 8,
                forall|j: int|
                    0 <= j < 8 ==> #[trigger] byte_bit(byte, j) == (j < i && pixel(
                        data@,
                        remap_source(m, wi, hi, k * 8 + j),
                    )),
            decreases 8 - i,
        {
            let q: u64 = k * 8 + i as u64;
            proof {
                assert(0 <= q < n);
                assert(wi > 0 && hi > 0) by (nonlinear_arith)
                    requires
                        n == wi * hi,
                        n > 0,
                        wi >= 0,
                        hi >= 0,
                ;
                lemma_source_in_frame(m, wi, hi, q as int);
            }
            let dx = q % nw;
            let dy = q / nw;
            let src: u64 = match m {
                Remap::Rotate90 => (h - 1 - dx) * w + dy,
                Remap::FlipHorizontal => dy * w + (w - 1 - dx),
                Remap::FlipVertical => (h - 1 - dy) * w + dx,
            };
            assert(src == remap_source(m, wi, hi, q as int));
            assert(src / 8 < data@.len());
            let sb = data[(src / 8) as usize];
            let bit = (sb >> (7 - (src % 8) as u8)) & 1;
            if bit == 1 {
                proof {
                    lemma_set_bit(byte, i);
                }
                byte = byte | (1u8 << (7 - i));
            }
            i = i + 1;
        }
        out.push(byte);
        k = k + 1;
    }
    proof {
        assert forall|q: int| 0 <= q < wi * hi implies #[trigger] pixel(out@, q) == pixel(
            data@,
            remap_source(m, wi, hi, q),
        ) by {
            let kk = q / 8;
            let i = q % 8;
            assert(q == kk * 8 + i);
            assert(0 <= kk < out@.len());
        }
    }
    out
}

/// An 8-bit grayscale image, row-major.
pub struct GrayImage {
    width: u32,
    height: u32,
    pixels: Vec<u8>,
}

impl GrayImage {
    /// Width in pixels.
    pub closed spec fn spec_width(&self) -> u32 {
        self.width
    }

    /// Height in pixels.
    pub closed spec fn spec_height(&self) -> u32 {
        self.height
    }

    /// The pixels, row-major.
    pub closed spec fn levels(&self) -> Seq<u8> {
        self.pixels@
    }

    /// The image holds exactly `width * height` pixels.
    pub open spec fn wf(&self) -> bool {
        self.levels().len() == self.spec_width() * self.spec_height()
    }

    /// An image of the given size from its pixels (row-major); `None` when
    /// their number is not `width * height`.
    pub fn from_raw(width: u32, height: u32, pixels: Vec<u8>) -> (r: Option<GrayImage>)
        ensures
            pixels@.len() == width * height <==> r is Some,
            r matches Some(g) ==> g.wf() && g.spec_width() == width && g.spec_height() == height
                && g.levels() == pixels@,
    {
        let w = width as u64;
        let h = height as u64;
        assert(w * h <= 0xffff_ffffu64 * 0xffff_ffffu64) by (nonlinear_arith)
            requires
                w <= 0xffff_ffffu64,
                h <= 0xffff_ffffu64,
        ;
        if pixels.len() as u64 == w * h {
            Some(GrayImage { width, height, pixels })
        } else {
            None
        }
    }

    /// Width and height.
    pub fn dimensions(&self) -> (r: (u32, u32))
        ensures
            r == (self.spec_width(), self.spec_height()),
    {
        (self.width, self.height)
    }

    /// The pixels, row-major.
    pub fn as_raw(&self) -> (r: &Vec<u8>)
        ensures
            r@ == self.levels(),
    {
        &self.pixels
    }
}

/// Dithering algorithms for converting grayscale to 1-bit.
#[derive(Debug, Clone, Copy, PartialEq, Eq, Structural)]
pub enum DitherMode {
    /// Simple threshold at 128.
    Threshold,
    /// Floyd-Steinberg error diffusion.
    FloydSteinberg,
    /// Ordered dithering with a 4x4 Bayer matrix.
    Ordered,
}

/// Entry (`row`, `col`) of the 4x4 Bayer matrix.
pub open spec fn bayer(row: int, col: int) -> int {
    let m = seq![
        seq![0int, 8, 2, 10],
        seq![12int, 4, 14, 6],
        seq![3int, 11, 1, 9],
        seq![15int, 7, 13, 5],
    ];
    m[row][col]
}

/// Ordered dithering of a `w`-wide image: pixel `q` is 1 where its level is
/// above 16 times the Bayer entry at (row mod 4, column mod 4).
pub open spec fn is_ordered_dither_of(w: int, levels: Seq<u8>, out: Seq<u8>) -> bool {
    &&& out.len() == levels.len() / 8
    &&& forall|q: int|
        0 <= q < levels.len() ==> #[trigger] pixel(out, q) == (levels[q] > 16 * bayer(
            (q / w) % 4,
            (q % w) % 4,
        ))
}

fn bayer_entry(row: usize, col: usize) -> (r: u8)
    requires
        row < 4,
        col < 4,
    ensures
        r == bayer(row as int, col as int),
{
    let m: [[u8; 4]; 4] = [[0, 8, 2, 10], [12, 4, 14, 6], [3, 11, 1, 9], [15, 7, 13, 5]];
    let r = m[row][col];
    assert(r == bayer(row as int, col as int));
    r
}

fn ordered_dither(g: &GrayImage) -> (r: Vec<u8>)
    requires
        g.wf(),
        g.levels().len() % 8 == 0,
    ensures
        is_ordered_dither_of(g.spec_width() as int, g.levels(), r@),
{
    let w = g.width as usize;
    let data = &g.pixels;
    let n = data.len();
    let nbytes: usize = n / 8;
    let ghost wi = w as int;
    let mut out: Vec<u8> = Vec::new();
    let mut k: usize = 0;
    while k < nbytes
        invariant
            wi == g.spec_width() as int,
            w == g.spec_width() as usize,
            data@ == g.levels(),
            g.wf(),
            n == data@.len(),
            n % 8 == 0,
            nbytes == n / 8,
            k <= nbytes,
            out@.len() == k,
            forall|kk: int, i: int|
                0 <= kk < k && 0 <= i < 8 ==> #[trigger] byte_bit(out@[kk], i) == (data@[kk * 8
                    + i] > 16 * bayer(((kk * 8 + i) / wi) % 4, ((kk * 8 + i) % wi) % 4)),
        decreases nbytes - k,
    {
        let mut byte: u8 = 0;
        let mut i: u8 = 0;
        proof {
            lemma_zero_bits();
        }
        while i < 8
            invariant
                wi == g.spec_width() as int,
                w == g.spec_width() as usize,
                data@ == g.levels(),
                g.wf(),
                n == data@.len(),
                nbytes == n / 8,
                k < nbytes,
                i <= 8,
                forall|j: int|
                    0 <= j < 8 ==> #[trigger] byte_bit(byte, j) == (j < i && data@[k * 8 + j] > 16
                        * bayer(((k * 8 + j) / wi) % 4, ((k * 8 + j) % wi) % 4)),
            decreases 8 - i,
        {
            let q: usize = k * 8 + i as usize;
            assert(w > 0) by {
                if w == 0 {
                    let gw = g.spec_width() as int;
                    let gh = g.spec_height() as int;
                    assert(gw * gh == 0) by (nonlinear_arith)
                        requires
                            gw == 0,
                    ;
                }
            }
            let t = 16 * bayer_entry((q / w) % 4, (q % w) % 4);
            assert(t as int == 16 * bayer(((k * 8 + i) / wi) % 4, ((k * 8 + i) % wi) % 4));
            let qi = q;
            if data[qi] > t {
                proof {
                    lemma_set_bit(byte, i);
                }
                byte = byte | (1u8 << (7 - i));
            }
            i = i + 1;
        }
        out.push(byte);
        k = k + 1;
    }
    proof {
        assert forall|q: int| 0 <= q < data@.len() implies #[trigger] pixel(out@, q) == (data@[q]
            > 16 * bayer((q / wi) % 4, (q % wi) % 4)) by {
            let kk = q / 8;
            let i = q % 8;
            assert(q == kk * 8 + i);
            assert(0 <= kk < out@.len());
        }
    }
    out
}

/// `a / 16`, rounded toward zero.
pub open spec fn div16(a: int) -> int {
    if a >= 0 {
        a / 16
    } else {
        -((-a) / 16)
    }
}

/// A level clamped to `[0, 255]`.
pub open spec fn clamp_level(v: int) -> u8 {
    if v < 0 {
        0
    } else if v > 255 {
        255
    } else {
        v as u8
    }
}

/// Pass `num`/16 of the error `err` on to pixel `q`.
pub open spec fn diffuse(work: Seq<u8>, q: int, err: int, num: int) -> Seq<u8> {
    work.update(q, clamp_level(work[q] + div16(err * num)))
}

/// The quantisation error of a level: its distance to the output level
/// (255 above 128, else 0).
pub open spec fn quant_error(v: u8) -> int {
    if v > 128 {
        v - 255
    } else {
        v as int
    }
}

/// One Floyd-Steinberg step at pixel `p` of a `w` x `h` working image: its
/// error goes 7/16 right, 3/16 below left, 5/16 below and 1/16 below right.
pub open spec fn fs_step(work: Seq<u8>, w: int, h: int, p: int) -> Seq<u8> {
    let x = p % w;
    let y = p / w;
    let err = quant_error(work[p]);
    let w1 = if x + 1 < w {
        diffuse(work, p + 1, err, 7)
    } else {
        work
    };
    let w2 = if y + 1 < h && x > 0 {
        diffuse(w1, p + w - 1, err, 3)
    } else {
        w1
    };
    let w3 = if y + 1 < h {
        diffuse(w2, p + w, err, 5)
    } else {
        w2
    };
    if y + 1 < h && x + 1 < w {
        diffuse(w3, p + w + 1, err, 1)
    } else {
        w3
    }
}

/// The working image after the first `k` Floyd-Steinberg steps.
pub open spec fn fs_work(levels: Seq<u8>, w: int, h: int, k: nat) -> Seq<u8>
    decreases k,
{
    if k == 0 {
        levels
    } else {
        fs_step(fs_work(levels, w, h, (k - 1) as nat), w, h, k - 1)
    }
}

/// Floyd-Steinberg dithering of a `w` x `h` image: pixel `q` is 1 where its
/// working level, when its turn comes, is above 128.
pub open spec fn is_fs_dither_of(w: int, h: int, levels: Seq<u8>, out: Seq<u8>) -> bool {
    &&& out.len() == levels.len() / 8
    &&& forall|q: int|
        0 <= q < levels.len() ==> #[trigger] pixel(out, q) == (fs_work(levels, w, h, q as nat)[q]
            > 128)
}

fn div16_exec(a: i32) -> (r: i32)
    requires
        -10000 <= a <= 10000,
    ensures
        r == div16(a as int),
{
    if a >= 0 {
        ((a as u32) / 16) as i32
    } else {
        -((((-a) as u32) / 16) as i32)
    }
}

fn diffuse_exec(work: &mut Vec<u8>, q: usize, err: i32, num: i32)
    requires
        q < old(work)@.len(),
        -255 <= err <= 255,
        1 <= num <= 7,
    ensures
        final(work)@ == diffuse(old(work)@, q as int, err as int, num as int),
{
    assert(-1785 <= err * num <= 1785) by (nonlinear_arith)
        requires
            -255 <= err <= 255,
            1 <= num <= 7,
    ;
    let d = div16_exec(err * num);
    let v = work[q] as i32 + d;
    let c: u8 = if v < 0 {
        0
    } else if v > 255 {
        255
    } else {
        v as u8
    };
    work.set(q, c);
}

fn zeros(n: usize) -> (r: Vec<u8>)
    ensures
        r@.len() == n,
        forall|k: int, i: int| 0 <= k < n && 0 <= i < 8 ==> !#[trigger] byte_bit(r@[k], i),
{
    let mut v: Vec<u8> = Vec::new();
    let mut i: usize = 0;
    proof {
        lemma_zero_bits();
    }
    while i < n
        invariant
            i <= n,
            v@.len() == i,
            forall|k: int| 0 <= k < i ==> #[trigger] v@[k] == 0u8,
        decreases n - i,
    {
        v.push(0);
        i = i + 1;
    }
    v
}

fn floyd_steinberg_dither(g: &GrayImage) -> (r: Vec<u8>)
    requires
        g.wf(),
        g.levels().len() % 8 == 0,
    ensures
        is_fs_dither_of(g.spec_width() as int, g.spec_height() as int, g.levels(), r@),
{
    let w = g.width as usize;
    let h = g.height as usize;
    let ghost wi = w as int;
    let ghost hi = h as int;
    let ghost levels = g.levels();
    let n = g.pixels.len();
    let mut work: Vec<u8> = Vec::new();
    let mut c: usize = 0;
    while c < n
        invariant
            n == levels.len(),
            levels == g.levels(),
            c <= n,
            work@ == levels.subrange(0, c as int),
        decreases n - c,
    {
        work.push(g.pixels[c]);
        c = c + 1;
        assert(work@ =~= levels.subrange(0, c as int));
    }
    assert(work@ =~= levels);
    let mut out = zeros(n / 8);
    let mut y: usize = 0;
    while y < h
        invariant
            wi == w as int,
            hi == h as int,
            n == wi * hi,
            n == levels.len(),
            n % 8 == 0,
            y <= h,
            work@.len() == n,
            work@ == fs_work(levels, wi, hi, (y * w) as nat),
            out@.len() == n / 8,
            forall|kk: int, i: int|
                0 <= kk < out@.len() && 0 <= i < 8 ==> #[trigger] byte_bit(out@[kk], i) == (kk * 8
                    + i < y * w && fs_work(levels, wi, hi, (kk * 8 + i) as nat)[kk * 8 + i] > 128),
        decreases h - y,
    {
        proof {
            assert((y + 1) * wi <= n) by (nonlinear_arith)
                requires
                    y < hi,
                    n == wi * hi,
                    wi >= 0,
            ;
            assert((y + 1) * wi == y * wi + wi) by (nonlinear_arith);
        }
        let mut x: usize = 0;
        while x < w
            invariant
                wi == w as int,
                hi == h as int,
                n == wi * hi,
                n == levels.len(),
                n % 8 == 0,
                y < h,
                x <= w,
                y * w + x <= n,
                (y + 1) * w <= n,
                work@.len() == n,
                work@ == fs_work(levels, wi, hi, (y * w + x) as nat),
                out@.len() == n / 8,
                forall|kk: int, i: int|
                    0 <= kk < out@.len() && 0 <= i < 8 ==> #[trigger] byte_bit(out@[kk], i) == (kk
                        * 8 + i < y * w + x && fs_work(levels, wi, hi, (kk * 8 + i) as nat)[kk * 8
                        + i] > 128),
            decreases w - x,
        {
            let p = y * w + x;
            let ghost before = work@;
            proof {
                assert((y + 1) * wi <= n) by (nonlinear_arith)
                    requires
                        y < hi,
                        n == wi * hi,
                        wi >= 0,
                ;
                assert((y + 1) * wi == y * wi + wi) by (nonlinear_arith);
                vstd::arithmetic::div_mod::lemma_fundamental_div_mod_converse(
                    p as int,
                    wi,
                    y as int,
                    x as int,
                );
                assert(y + 1 < hi ==> (y + 2) * wi <= n) by (nonlinear_arith)
                    requires
                        n == wi * hi,
                        wi >= 0,
                ;
                assert((y + 2) * wi == y * wi + 2 * wi) by (nonlinear_arith);
            }
            let old_level = work[p];
            let err: i32 = if old_level > 128 {
                old_level as i32 - 255
            } else {
                old_level as i32
            };
            if old_level > 128 {
                let ghost ob = out@;
                write_pixel(&mut out, p / 8, (p % 8) as u8, true);
                proof {
                    assert((p / 8) * 8 + (p % 8) as u8 == p);
                }
            }
            if x + 1 < w {
                diffuse_exec(&mut work, p + 1, err, 7);
            }
            if y + 1 < h && x > 0 {
                diffuse_exec(&mut work, p + w - 1, err, 3);
            }
            if y + 1 < h {
                diffuse_exec(&mut work, p + w, err, 5);
            }
            if y + 1 < h && x + 1 < w {
                diffuse_exec(&mut work, p + w + 1, err, 1);
            }
            proof {
                assert(work@ == fs_step(before, wi, hi, p as int));
                assert(fs_work(levels, wi, hi, (p + 1) as nat) == fs_step(
                    fs_work(levels, wi, hi, p as nat),
                    wi,
                    hi,
                    p as int,
                ));
                assert forall|kk: int, i: int|
                    0 <= kk < out@.len() && 0 <= i < 8 implies #[trigger] byte_bit(out@[kk], i)
                    == (kk * 8 + i < p + 1 && fs_work(levels, wi, hi, (kk * 8 + i) as nat)[kk * 8
                    + i] > 128) by {
                    if kk * 8 + i == p {
                        assert(before == fs_work(levels, wi, hi, (kk * 8 + i) as nat));
                    }
                }
            }
            x = x + 1;
        }
        proof {
            assert((y + 1) * wi == y * wi + wi) by (nonlinear_arith);
        }
        y = y + 1;
    }
    proof {
        assert(y * w == n) by (nonlinear_arith)
            requires
                y == hi,
                w == wi,
                n == wi * hi,
        ;
        assert forall|q: int| 0 <= q < n implies #[trigger] pixel(out@, q) == (fs_work(
            levels,
            wi,
            hi,
            q as nat,
        )[q] > 128) by {
            let kk = q / 8;
            let i = q % 8;
            assert(q == kk * 8 + i);
            assert(0 <= kk < out@.len());
        }
    }
    out
}

/// Processor of 1-bit frames for one display spec.
pub struct ImageProcessor {
    spec: DisplaySpec,
}

impl ImageProcessor {
    /// The display spec this processor targets.
    pub closed spec fn spec(&self) -> DisplaySpec {
        self.spec
    }

    /// Create a new image processor for the given display specification.
    pub fn new(spec: DisplaySpec) -> (r: Self)
        ensures
            r.spec() == spec,
    {
        ImageProcessor { spec }
    }

    /// Pack grayscale bytes into 1-bit format, MSB first: a pixel above
    /// `THRESHOLD` becomes 1.
    pub fn pack_1bit(&self, data: &[u8]) -> (r: Vec<u8>)
        ensures
            is_packing_of(data@, r@),
    {
        pack_grayscale(data)
    }

    /// Dither a grayscale image to packed 1-bit data: by threshold at
    /// `THRESHOLD`, by Floyd-Steinberg error diffusion, or by the 4x4 Bayer
    /// matrix.
    pub fn dither(&self, gray: &GrayImage, mode: DitherMode) -> (r: Vec<u8>)
        requires
            gray.wf(),
            gray.levels().len() % 8 == 0,
        ensures
            mode is Threshold ==> is_packing_of(gray.levels(), r@),
            mode is Ordered ==> is_ordered_dither_of(gray.spec_width() as int, gray.levels(), r@),
            mode is FloydSteinberg ==> is_fs_dither_of(
                gray.spec_width() as int,
                gray.spec_height() as int,
                gray.levels(),
                r@,
            ),
    {
        match mode {
            DitherMode::Threshold => pack_grayscale(gray.pixels.as_slice()),
            DitherMode::FloydSteinberg => floyd_steinberg_dither(gray),
            DitherMode::Ordered => ordered_dither(gray),
        }
    }

    /// Rotate packed 1-bit data by 90 degrees clockwise.
    pub fn rotate_1bit_90(&self, data: &[u8], width: u32, height: u32) -> (r: Vec<u8>)
        requires
            (width * height) % 8 == 0,
            data@.len() * 8 >= width * height,
        ensures
            is_remap_of(Remap::Rotate90, width as int, height as int, data@, r@),
    {
        remap_1bit(Remap::Rotate90, data, width, height)
    }

    /// Mirror packed 1-bit data left-right.
    pub fn flip_horizontal_1bit(&self, data: &[u8], width: u32, height: u32) -> (r: Vec<u8>)
        requires
            (width * height) % 8 == 0,
            data@.len() * 8 >= width * height,
        ensures
            is_remap_of(Remap::FlipHorizontal, width as int, height as int, data@, r@),
    {
        remap_1bit(Remap::FlipHorizontal, data, width, height)
    }

    /// Mirror packed 1-bit data top-bottom.
    pub fn flip_vertical_1bit(&self, data: &[u8], width: u32, height: u32) -> (r: Vec<u8>)
        requires
            (width * height) % 8 == 0,
            data@.len() * 8 >= width * height,
        ensures
            is_remap_of(Remap::FlipVertical, width as int, height as int, data@, r@),
    {
        remap_1bit(Remap::FlipVertical, data, width, height)
    }

    /// Unpack 1-bit data to grayscale bytes: 255 for each 1, 0 for each 0.
    pub fn unpack_1bit(&self, data: &[u8]) -> (r: Vec<u8>)
        requires
            data@.len() * 8 <= usize::MAX,
        ensures
            is_unpacking_of(data@, r@),
    {
        let mut output: Vec<u8> = Vec::new();
        let mut k: usize = 0;
        while k < data.len()
            invariant
                k <= data@.len(),
                output@.len() == k * 8,
                forall|kk: int, i: int|
                    0 <= kk < k && 0 <= i < 8 ==> #[trigger] output@[kk * 8 + i] == if byte_bit(
                        data@[kk],
                        i,
                    ) {
                        255u8
                    } else {
                        0u8
                    },
            decreases data@.len() - k,
        {
            let byte = data[k];
            let mut i: u8 = 0;
            while i < 8
                invariant
                    k < data@.len(),
                    byte == data@[k as int],
                    i <= 8,
                    output@.len() == k * 8 + i,
                    forall|kk: int, ii: int|
                        0 <= kk < k && 0 <= ii < 8 ==> #[trigger] output@[kk * 8 + ii] == if byte_bit(
                            data@[kk],
                            ii,
                        ) {
                            255u8
                        } else {
                            0u8
                        },
                    forall|ii: int|
                        0 <= ii < i ==> #[trigger] output@[k * 8 + ii] == if byte_bit(byte, ii) {
                            255u8
                        } else {
                            0u8
                        },
                decreases 8 - i,
            {
                let bit = (byte >> (7 - i)) & 1;
                output.push(if bit == 1 { 255 } else { 0 });
                i = i + 1;
            }
            k = k + 1;
        }
        output
    }

    /// Invert a 1-bit image (swap black and white).
    pub fn invert_1bit(&self, data: &[u8]) -> (r: Vec<u8>)
        ensures
            r@.len() == data@.len(),
            forall|k: int| 0 <= k < data@.len() ==> #[trigger] r@[k] == !data@[k],
            forall|p: int|
                0 <= p < data@.len() * 8 ==> #[trigger] pixel(r@, p) == !pixel(data@, p),
    {
        let mut output: Vec<u8> = Vec::new();
        let mut k: usize = 0;
        while k < data.len()
            invariant
                k <= data@.len(),
                output@.len() == k,
                forall|kk: int| 0 <= kk < k ==> #[trigger] output@[kk] == !data@[kk],
            decreases data@.len() - k,
        {
            output.push(!data[k]);
            k = k + 1;
        }
        proof {
            assert forall|p: int| 0 <= p < data@.len() * 8 implies #[trigger] pixel(output@, p)
                == !pixel(data@, p) by {
                let k = p / 8;
                lemma_not_bits(data@[k]);
                assert(0 <= k < data@.len()) by (nonlinear_arith)
                    requires
                        0 <= p < data@.len() * 8,
                        k == p / 8,
                ;
            }
        }
        output
    }
}

} // verus!
