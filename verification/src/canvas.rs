//! The composite pixel buffer: a width by height image of fully opaque
//! 8-bit RGBA pixels, stored row-major, four bytes per pixel. The search
//! engine owns one canonical canvas; workers score private copies of it.

use vstd::prelude::*;

verus! {

use vstd::arithmetic::div_mod::{lemma_div_is_ordered, lemma_div_multiples_vanish};
use vstd::arithmetic::mul::lemma_mul_is_commutative;
use crate::draw_command::{Rgba, MAX_DIMENSION};

/// Byte `c` (0 red, 1 green, 2 blue, 3 alpha) of the pixel at flat index
/// `i` of a row-major RGBA byte buffer.
pub open spec fn pixel_byte(s: Seq<u8>, i: int, c: int) -> u8 {
    s[4 * i + c]
}

/// An opaque RGBA pixel buffer. The bytes of pixel `(x, y)` start at
/// `4 * (x + width * y)`; every pixel's alpha byte is 255.
pub struct Canvas {
    width: u32,
    height: u32,
    pixels: Vec<u8>,
}

impl View for Canvas {
    type V = Seq<u8>;

    closed spec fn view(&self) -> Seq<u8> {
        self.pixels@
    }
}

impl Canvas {
    /// The stored width, in pixels.
    pub closed spec fn spec_width(&self) -> u32 {
        self.width
    }

    /// The stored height, in pixels.
    pub closed spec fn spec_height(&self) -> u32 {
        self.height
    }

    /// Well-formed: positive bounded dimensions, a byte per channel of
    /// every pixel, and every pixel fully opaque.
    pub closed spec fn wf(&self) -> bool {
        &&& 1 <= self.width <= MAX_DIMENSION
        &&& 1 <= self.height <= MAX_DIMENSION
        &&& self.pixels@.len() == 4 * (self.width * self.height)
        &&& forall|i: int|
            0 <= i < self.width * self.height ==> #[trigger] pixel_byte(self.pixels@, i, 3)
                == 255
    }

    /// What well-formedness tells a caller about the byte view.
    pub proof fn lemma_wf(&self)
        requires
            self.wf(),
        ensures
            1 <= self.spec_width() <= MAX_DIMENSION,
            1 <= self.spec_height() <= MAX_DIMENSION,
            self@.len() == 4 * (self.spec_width() * self.spec_height()),
            forall|i: int|
                0 <= i < self.spec_width() * self.spec_height() ==> #[trigger] pixel_byte(
                    self@,
                    i,
                    3,
                ) == 255,
    {
    }

    /// The width, in pixels.
    pub fn width(&self) -> (w: u32)
        ensures
            w == self.spec_width(),
    {
        self.width
    }

    /// The height, in pixels.
    pub fn height(&self) -> (h: u32)
        ensures
            h == self.spec_height(),
    {
        self.height
    }

    /// The red, green and blue bytes of the pixel at flat index `i`.
    pub fn rgb_at(&self, i: usize) -> (c: (u8, u8, u8))
        requires
            self.wf(),
            i < self.spec_width() * self.spec_height(),
        ensures
            c.0 == pixel_byte(self@, i as int, 0),
            c.1 == pixel_byte(self@, i as int, 1),
            c.2 == pixel_byte(self@, i as int, 2),
    {
        let len = self.pixels.len();
        proof {
            assert(4 * i + 3 < len);
        }
        let base = 4 * i;
        (self.pixels[base], self.pixels[base + 1], self.pixels[base + 2])
    }

    /// A canvas of the given dimensions with every pixel set to `color`.
    pub fn filled(width: u32, height: u32, color: Rgba) -> (c: Canvas)
        requires
            1 <= width <= MAX_DIMENSION,
            1 <= height <= MAX_DIMENSION,
            color.a == 255,
        ensures
            c.wf(),
            c.spec_width() == width,
            c.spec_height() == height,
            forall|i: int|
                0 <= i < width * height ==> #[trigger] pixel_byte(c@, i, 0) == color.r
                    && pixel_byte(c@, i, 1) == color.g && pixel_byte(c@, i, 2) == color.b
                    && pixel_byte(c@, i, 3) == color.a,
    {
        proof {
            assert(width * height <= 0x1_0000_0000 && 4 * (width * height) <= 0x4_0000_0000)
                by (nonlinear_arith)
                requires
                    width <= 0x1_0000,
                    height <= 0x1_0000,
            ;
        }
        let count = (width as u64) * (height as u64);
        let mut pixels: Vec<u8> = Vec::new();
        let mut i: u64 = 0;
        while i < count
            invariant
                i <= count,
                count == width * height,
                count <= 0x1_0000_0000,
                pixels@.len() == 4 * i,
                forall|j: int|
                    0 <= j < i ==> #[trigger] pixel_byte(pixels@, j, 0) == color.r && pixel_byte(
                        pixels@,
                        j,
                        1,
                    ) == color.g && pixel_byte(pixels@, j, 2) == color.b && pixel_byte(
                        pixels@,
                        j,
                        3,
                    ) == color.a,
            decreases count - i,
        {
            let ghost prev = pixels@;
            pixels.push(color.r);
            pixels.push(color.g);
            pixels.push(color.b);
            pixels.push(color.a);
            proof {
                let pl = prev.len() as int;
                assert forall|k: int| 0 <= k < pl implies pixels@[k] == prev[k] by {
                    assert(pixels@[k] == prev.push(color.r).push(color.g).push(color.b)[k]);
                    assert(prev.push(color.r).push(color.g).push(color.b)[k] == prev.push(
                        color.r,
                    ).push(color.g)[k]);
                    assert(prev.push(color.r).push(color.g)[k] == prev.push(color.r)[k]);
                    assert(prev.push(color.r)[k] == prev[k]);
                }
                assert(pixels@[pl] == color.r);
                assert(pixels@[pl + 1] == color.g);
                assert(pixels@[pl + 2] == color.b);
                assert(pixels@[pl + 3] == color.a);
                assert forall|j: int| 0 <= j < i + 1 implies #[trigger] pixel_byte(pixels@, j, 0)
                    == color.r && pixel_byte(pixels@, j, 1) == color.g && pixel_byte(pixels@, j, 2)
                    == color.b && pixel_byte(pixels@, j, 3) == color.a by {
                    if j < i {
                        assert(pixel_byte(prev, j, 0) == color.r);
                        assert(pixel_byte(prev, j, 1) == color.g);
                        assert(pixel_byte(prev, j, 2) == color.b);
                        assert(pixel_byte(prev, j, 3) == color.a);
                    } else {
                        assert(4 * j == pl);
                    }
                }
            }
            i = i + 1;
        }
        proof {
            assert forall|k: int| 0 <= k < width * height implies #[trigger] pixel_byte(
                pixels@,
                k,
                3,
            ) == 255 by {
                assert(pixel_byte(pixels@, k, 0) == color.r);
                assert(pixel_byte(pixels@, k, 3) == color.a);
            }
        }
        Canvas { width, height, pixels }
    }

    /// Adopt a rendered RGBA buffer as a canvas. Returns the canvas exactly
    /// when the dimensions are positive and bounded, the buffer holds four
    /// bytes per pixel, and every pixel is fully opaque; otherwise nothing.
    pub fn from_rgba_bytes(width: u32, height: u32, bytes: Vec<u8>) -> (r: Option<Canvas>)
        ensures
            match r {
                Some(c) => {
                    &&& c.wf()
                    &&& c.spec_width() == width
                    &&& c.spec_height() == height
                    &&& c@ == bytes@
                    &&& 1 <= width <= MAX_DIMENSION
                    &&& 1 <= height <= MAX_DIMENSION
                    &&& bytes@.len() == 4 * (width * height)
                    &&& forall|i: int|
                        0 <= i < width * height ==> #[trigger] pixel_byte(bytes@, i, 3) == 255
                },
                None => {
                    ||| !(1 <= width <= MAX_DIMENSION)
                    ||| !(1 <= height <= MAX_DIMENSION)
                    ||| bytes@.len() != 4 * (width * height)
                    ||| exists|i: int|
                        0 <= i < width * height && #[trigger] pixel_byte(bytes@, i, 3) != 255
                },
            },
    {
        if width < 1 || width > MAX_DIMENSION || height < 1 || height > MAX_DIMENSION {
            return None;
        }
        proof {
            assert(width * height <= 0x1_0000_0000 && 4 * (width * height) <= 0x4_0000_0000)
                by (nonlinear_arith)
                requires
                    width <= 0x1_0000,
                    height <= 0x1_0000,
            ;
        }
        let count = (width as u64) * (height as u64);
        if (bytes.len() as u64) != 4 * count {
            return None;
        }
        let mut i: u64 = 0;
        while i < count
            invariant
                i <= count,
                count == width * height,
                count <= 0x1_0000_0000,
                bytes@.len() == 4 * count,
                forall|j: int| 0 <= j < i ==> #[trigger] pixel_byte(bytes@, j, 3) == 255,
            decreases count - i,
        {
            proof {
                assert(4 * i + 3 < bytes@.len());
            }
            let idx = (4 * i + 3) as usize;
            if bytes[idx] != 255 {
                proof {
                    assert(pixel_byte(bytes@, i as int, 3) != 255);
                    assert(0 <= i < width * height && pixel_byte(bytes@, i as int, 3) != 255);
                }
                return None;
            }
            proof {
                assert(pixel_byte(bytes@, i as int, 3) == 255);
            }
            i = i + 1;
        }
        Some(Canvas { width, height, pixels: bytes })
    }
}

/// The sum of channel `c` (0 red, 1 green, 2 blue) over the first `n`
/// pixels of a row-major RGBA byte buffer.
pub open spec fn spec_channel_sum(img: Seq<u8>, n: int, c: int) -> int
    decreases n,
{
    if n <= 0 {
        0
    } else {
        spec_channel_sum(img, n - 1, c) + img[4 * (n - 1) + c]
    }
}

/// The channel-wise average color of an RGBA buffer of `w * h` pixels,
/// truncated, fully opaque; black when the buffer is empty.
pub open spec fn spec_avg_color(img: Seq<u8>, w: int, h: int) -> Rgba {
    let count = w * h;
    if count == 0 {
        Rgba { r: 0, g: 0, b: 0, a: 255 }
    } else {
        Rgba {
            r: (spec_channel_sum(img, count, 0) / count) as u8,
            g: (spec_channel_sum(img, count, 1) / count) as u8,
            b: (spec_channel_sum(img, count, 2) / count) as u8,
            a: 255,
        }
    }
}

/// A channel sum over `n` pixels is at most `255 * n`.
proof fn lemma_channel_sum_bound(img: Seq<u8>, n: int, c: int)
    requires
        0 <= n,
    ensures
        0 <= spec_channel_sum(img, n, c) <= 255 * n,
    decreases n,
{
    if n > 0 {
        lemma_channel_sum_bound(img, n - 1, c);
    }
}

/// The channel-wise average color of the target image, used to pick the
/// background: each channel is the truncated mean of that channel over all
/// pixels, the result fully opaque, and black for an empty image.
pub fn avg_color(w: u32, h: u32, img: &Vec<u8>) -> (color: Rgba)
    requires
        w <= MAX_DIMENSION,
        h <= MAX_DIMENSION,
        img.len() == 4 * (w * h),
    ensures
        color == spec_avg_color(img@, w as int, h as int),
{
    proof {
        assert(w * h <= 0x1_0000_0000) by (nonlinear_arith)
            requires
                w <= 0x1_0000,
                h <= 0x1_0000,
        ;
    }
    let count = (w as u64) * (h as u64);
    if count == 0 {
        return Rgba { r: 0, g: 0, b: 0, a: 255 };
    }
    let mut sum_r: u64 = 0;
    let mut sum_g: u64 = 0;
    let mut sum_b: u64 = 0;
    let mut i: u64 = 0;
    while i < count
        invariant
            i <= count,
            count == w * h,
            count <= 0x1_0000_0000,
            img.len() == 4 * count,
            sum_r == spec_channel_sum(img@, i as int, 0),
            sum_g == spec_channel_sum(img@, i as int, 1),
            sum_b == spec_channel_sum(img@, i as int, 2),
            sum_r <= 255 * i,
            sum_g <= 255 * i,
            sum_b <= 255 * i,
        decreases count - i,
    {
        proof {
            assert(4 * i + 3 < img@.len());
        }
        let base = (4 * i) as usize;
        sum_r = sum_r + img[base] as u64;
        sum_g = sum_g + img[base + 1] as u64;
        sum_b = sum_b + img[base + 2] as u64;
        i = i + 1;
    }
    proof {
        lemma_avg_in_range(sum_r as int, count as int);
        lemma_avg_in_range(sum_g as int, count as int);
        lemma_avg_in_range(sum_b as int, count as int);
    }
    Rgba {
        r: (sum_r / count) as u8,
        g: (sum_g / count) as u8,
        b: (sum_b / count) as u8,
        a: 255,
    }
}

/// A sum of at most `255 * count` bytes divided by `count` fits in a byte.
proof fn lemma_avg_in_range(sum: int, count: int)
    requires
        1 <= count,
        0 <= sum <= 255 * count,
    ensures
        0 <= sum / count <= 255,
{
    lemma_div_is_ordered(sum, 255 * count, count);
    lemma_mul_is_commutative(255, count);
    lemma_div_multiples_vanish(255, count);
    vstd::arithmetic::div_mod::lemma_div_pos_is_pos(sum, count);
}

} // verus!
