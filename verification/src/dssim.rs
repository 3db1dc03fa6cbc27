//! The perceptual difference metric: a blend of per-pixel mean squared
//! error in Lab space with a block-wise structural dissimilarity term,
//! computed in exact fixed-point integer arithmetic. Scores are plain
//! integers at a fixed scale; lower is better and zero means the canvas
//! matches the target projection exactly.
//!
//! A Lab component arrives as the bit pattern of a 32-bit floating-point
//! value and is decoded here to a fixed-point integer with 5120 steps per
//! unit, truncated toward zero and clamped to |128| units.

use vstd::prelude::*;

verus! {

use vstd::arithmetic::power2::{
    pow2,
    lemma_pow2_pos,
    lemma_pow2_strictly_increases,
    lemma2_to64,
    lemma2_to64_rest,
};
use vstd::arithmetic::div_mod::{
    lemma_basic_div,
    lemma_div_is_ordered,
    lemma_div_is_ordered_by_denominator,
    lemma_div_pos_is_pos,
    lemma_div_multiples_vanish_quotient,
};
use vstd::bits::lemma_u64_shr_is_div;
use crate::color_converter::{ColorConverter, LabColor, lab_color_of};
use crate::canvas::{Canvas, pixel_byte};

/// Fixed-point steps per Lab unit.
pub const FIX_SCALE: i64 = 5120;

/// Largest decoded magnitude: 128 Lab units.
pub const FIX_CLAMP: i64 = 655360;

/// Scale of final scores.
pub const SCORE_SCALE: i64 = 0x1_0000_0000;

/// Signed division truncating toward zero, the rounding of the metric.
pub open spec fn spec_div_trunc(a: int, b: int) -> int
    recommends
        b > 0,
{
    if a >= 0 {
        a / b
    } else {
        -((-a) / b)
    }
}

/// Divide, truncating toward zero.
fn div_trunc(a: i128, b: i128) -> (r: i128)
    requires
        b > 0,
        a != i128::MIN,
    ensures
        r == spec_div_trunc(a as int, b as int),
        a >= 0 ==> 0 <= r <= a,
        a < 0 ==> a <= r <= 0,
{
    if a >= 0 {
        proof {
            lemma_div_pos_is_pos(a as int, b as int);
            lemma_div_is_ordered(a as int, a as int, b as int);
            vstd::arithmetic::div_mod::lemma_div_nonincreasing(a as int, b as int);
        }
        ((a as u128) / (b as u128)) as i128
    } else {
        let m = (-a) as u128;
        let q = m / (b as u128);
        proof {
            lemma_div_pos_is_pos(m as int, b as int);
            vstd::arithmetic::div_mod::lemma_div_nonincreasing(m as int, b as int);
        }
        -(q as i128)
    }
}

/// The fixed-point value that a Lab component's 32-bit floating-point bit
/// pattern decodes to: the real value times `FIX_SCALE`, truncated toward
/// zero, saturated at plus or minus `FIX_CLAMP` (reached only beyond 128
/// units, outside the Lab gamut). The exponent and mantissa fields are
/// read straight from the bit pattern; subnormal magnitudes truncate to
/// zero.
pub open spec fn spec_fix_of_bits(bits: u32) -> int {
    let sign = bits / 0x8000_0000;
    let exp = (bits / 0x80_0000) % 256;
    let frac = bits % 0x80_0000;
    let mag = if exp == 0 {
        0
    } else if exp >= 134 {
        FIX_CLAMP as int
    } else {
        ((0x80_0000 + frac) * FIX_SCALE) / (pow2((150 - exp) as nat) as int)
    };
    if sign == 1 {
        -mag
    } else {
        mag
    }
}

/// A normal-range magnitude divided by at least 2^17 stays under the clamp.
proof fn lemma_fix_mag_bound(m: int, k: nat)
    requires
        0 <= m <= 85_899_340_800,
        17 <= k,
    ensures
        0 <= m / (pow2(k) as int) <= 655_359,
{
    lemma_pow2_pos(k);
    lemma2_to64();
    if k > 17 {
        lemma_pow2_strictly_increases(17, k);
    }
    lemma_div_is_ordered_by_denominator(m, 131072, pow2(k) as int);
    lemma_div_is_ordered(m, 85_899_340_800, 131072);
    lemma_div_pos_is_pos(m, pow2(k) as int);
}

/// Every decoded value lies within the clamp.
pub proof fn lemma_fix_bound(bits: u32)
    ensures
        -FIX_CLAMP <= spec_fix_of_bits(bits) <= FIX_CLAMP,
{
    let exp = ((bits / 0x80_0000) % 256) as int;
    let frac = (bits % 0x80_0000) as int;
    if 1 <= exp < 134 {
        assert(0 <= (0x80_0000 + frac) * FIX_SCALE <= 85_899_340_800);
        lemma_fix_mag_bound((0x80_0000 + frac) * FIX_SCALE, (150 - exp) as nat);
    }
}

/// Decode a Lab component's bit pattern to its fixed-point value.
pub fn fix_of_bits(bits: u32) -> (v: i64)
    ensures
        v == spec_fix_of_bits(bits),
        -FIX_CLAMP <= v <= FIX_CLAMP,
{
    let sign = bits / 0x8000_0000;
    let exp = (bits / 0x80_0000) % 256;
    let frac = bits % 0x80_0000;
    let mag: u64 = if exp == 0 {
        0
    } else if exp >= 134 {
        655_360
    } else if exp < 87 {
        proof {
            lemma2_to64();
            lemma2_to64_rest();
            lemma_pow2_strictly_increases(37, (150 - exp) as nat);
            assert(frac < 0x80_0000);
            assert(0 <= (0x80_0000 + frac) * FIX_SCALE <= 85_899_340_800);
            assert(pow2(37) == 0x20_0000_0000);
            assert((0x80_0000 + frac) * FIX_SCALE < pow2((150 - exp) as nat));
            lemma_basic_div(
                ((0x80_0000 + frac) * FIX_SCALE) as int,
                pow2((150 - exp) as nat) as int,
            );
        }
        0
    } else {
        let m: u64 = (0x80_0000u64 + frac as u64) * 5120;
        let shift: u32 = 150 - exp;
        let r = m >> (shift as u64);
        proof {
            lemma_u64_shr_is_div(m, shift as u64);
            lemma_fix_mag_bound(m as int, shift as nat);
        }
        r
    };
    proof {
        lemma_fix_bound(bits);
    }
    if sign == 1 {
        -(mag as i64)
    } else {
        mag as i64
    }
}

/// The Lab color of canvas pixel `i`, read through the conversion table.
pub open spec fn canvas_lab(s: Seq<u8>, i: int) -> LabColor {
    lab_color_of(pixel_byte(s, i, 0), pixel_byte(s, i, 1), pixel_byte(s, i, 2))
}

/// Component `ch` (0 L, 1 a, 2 b) of a Lab color, as its bit pattern.
pub open spec fn lab_bits(c: LabColor, ch: int) -> u32 {
    if ch == 0 {
        c.l
    } else if ch == 1 {
        c.a
    } else {
        c.b
    }
}

/// Fixed-point value of component `ch` of a Lab color.
pub open spec fn lab_fix(c: LabColor, ch: int) -> int {
    spec_fix_of_bits(lab_bits(c, ch))
}

/// The summed squared fixed-point difference of the three Lab components
/// between the target projection and the canvas at pixel `i`.
pub open spec fn spec_pixel_sq(lab_img: Seq<LabColor>, s: Seq<u8>, i: int) -> int {
    let c1 = lab_img[i];
    let c2 = canvas_lab(s, i);
    let d0 = lab_fix(c1, 0) - lab_fix(c2, 0);
    let d1 = lab_fix(c1, 1) - lab_fix(c2, 1);
    let d2 = lab_fix(c1, 2) - lab_fix(c2, 2);
    d0 * d0 + d1 * d1 + d2 * d2
}

/// The squared-difference sum over the first `n` pixels.
pub open spec fn spec_mse_sum(lab_img: Seq<LabColor>, s: Seq<u8>, n: int) -> int
    decreases n,
{
    if n <= 0 {
        0
    } else {
        spec_mse_sum(lab_img, s, n - 1) + spec_pixel_sq(lab_img, s, n - 1)
    }
}

/// Largest value of `spec_pixel_sq`: three channels of a squared
/// difference of two clamped values.
pub const PIXEL_SQ_MAX: i64 = 5_153_960_755_200;

/// A pixel's squared difference lies between zero and `PIXEL_SQ_MAX`.
proof fn lemma_pixel_sq_bounds(lab_img: Seq<LabColor>, s: Seq<u8>, i: int)
    ensures
        0 <= spec_pixel_sq(lab_img, s, i) <= PIXEL_SQ_MAX,
{
    let c1 = lab_img[i];
    let c2 = canvas_lab(s, i);
    lemma_fix_bound(lab_bits(c1, 0));
    lemma_fix_bound(lab_bits(c1, 1));
    lemma_fix_bound(lab_bits(c1, 2));
    lemma_fix_bound(lab_bits(c2, 0));
    lemma_fix_bound(lab_bits(c2, 1));
    lemma_fix_bound(lab_bits(c2, 2));
    let d0 = lab_fix(c1, 0) - lab_fix(c2, 0);
    let d1 = lab_fix(c1, 1) - lab_fix(c2, 1);
    let d2 = lab_fix(c1, 2) - lab_fix(c2, 2);
    assert(0 <= d0 * d0 <= 1_717_986_918_400 && 0 <= d1 * d1 <= 1_717_986_918_400 && 0 <= d2
        * d2 <= 1_717_986_918_400) by (nonlinear_arith)
        requires
            -1310720 <= d0 <= 1310720,
            -1310720 <= d1 <= 1310720,
            -1310720 <= d2 <= 1310720,
    ;
}

/// The squared-difference sum over `n` pixels is between zero and
/// `n * PIXEL_SQ_MAX`.
proof fn lemma_mse_sum_bounds(lab_img: Seq<LabColor>, s: Seq<u8>, n: int)
    requires
        0 <= n,
    ensures
        0 <= spec_mse_sum(lab_img, s, n) <= n * PIXEL_SQ_MAX,
    decreases n,
{
    if n > 0 {
        lemma_mse_sum_bounds(lab_img, s, n - 1);
        lemma_pixel_sq_bounds(lab_img, s, n - 1);
    }
}

/// Flat index of sample `k` (of 64, row-major inside the block) of the
/// 8x8 block at block coordinates `(bx, by)` of a `w`-wide image.
pub open spec fn spec_block_index(w: int, bx: int, by: int, k: int) -> int {
    (8 * by + k / 8) * w + 8 * bx + k % 8
}

/// Running per-channel sums over the first `k` samples of a block: the
/// target sum, the canvas sum, both square sums, and the product sum.
pub open spec fn spec_block_sums(
    lab_img: Seq<LabColor>,
    s: Seq<u8>,
    w: int,
    bx: int,
    by: int,
    ch: int,
    k: int,
) -> (int, int, int, int, int)
    decreases k,
{
    if k <= 0 {
        (0, 0, 0, 0, 0)
    } else {
        let p = spec_block_sums(lab_img, s, w, bx, by, ch, k - 1);
        let idx = spec_block_index(w, bx, by, k - 1);
        let x = lab_fix(lab_img[idx], ch);
        let y = lab_fix(canvas_lab(s, idx), ch);
        (p.0 + x, p.1 + y, p.2 + x * x, p.3 + y * y, p.4 + x * y)
    }
}

/// One step of the power-mean inequality: if `k` values sum to `a` with
/// square sum `q` and `k * q >= a * a`, appending one more value keeps it.
proof fn lemma_sum_sq_step(k: int, a: int, q: int, u: int)
    requires
        0 <= k,
        0 <= q,
        k * q >= a * a,
    ensures
        0 <= q + u * u,
        (k + 1) * (q + u * u) >= (a + u) * (a + u),
{
    assert(0 <= u * u) by (nonlinear_arith);
    if k == 0 {
        assert(a == 0) by (nonlinear_arith)
            requires
                a * a <= 0,
        ;
        assert((k + 1) * (q + u * u) >= (a + u) * (a + u)) by (nonlinear_arith)
            requires
                k == 0 && a == 0 && q >= 0,
        ;
    } else {
        let cross = q + k * (u * u) - 2 * (a * u);
        assert(k * cross == (k * q - a * a) + (k * u - a) * (k * u - a)) by (nonlinear_arith)
            requires
                cross == q + k * (u * u) - 2 * (a * u),
        ;
        assert((k * u - a) * (k * u - a) >= 0) by (nonlinear_arith);
        assert(cross >= 0) by (nonlinear_arith)
            requires
                k >= 1,
                k * cross >= 0,
        ;
        assert((k + 1) * (q + u * u) - (a + u) * (a + u) == (k * q - a * a) + cross)
            by (nonlinear_arith)
            requires
                cross == q + k * (u * u) - 2 * (a * u),
        ;
    }
}

/// The facts the structural term rests on, for any block prefix: `k`
/// times each square sum dominates the matching squared sum — for the
/// target, the canvas, their difference and their total — and every sum
/// stays within its fixed bound.
proof fn lemma_block_sums_facts(
    lab_img: Seq<LabColor>,
    s: Seq<u8>,
    w: int,
    bx: int,
    by: int,
    ch: int,
    k: int,
)
    requires
        0 <= k,
    ensures
        ({
            let (a1, a2, q1, q2, p) = spec_block_sums(lab_img, s, w, bx, by, ch, k);
            &&& -(k * FIX_CLAMP) <= a1 <= k * FIX_CLAMP
            &&& -(k * FIX_CLAMP) <= a2 <= k * FIX_CLAMP
            &&& 0 <= q1 <= k * 429_496_729_600
            &&& 0 <= q2 <= k * 429_496_729_600
            &&& -(k * 429_496_729_600) <= p <= k * 429_496_729_600
            &&& 0 <= q1 + q2 - 2 * p
            &&& 0 <= q1 + q2 + 2 * p
            &&& k * q1 >= a1 * a1
            &&& k * q2 >= a2 * a2
            &&& k * (q1 + q2 - 2 * p) >= (a1 - a2) * (a1 - a2)
            &&& k * (q1 + q2 + 2 * p) >= (a1 + a2) * (a1 + a2)
        }),
    decreases k,
{
    if k > 0 {
        lemma_block_sums_facts(lab_img, s, w, bx, by, ch, k - 1);
        let (a1, a2, q1, q2, p) = spec_block_sums(lab_img, s, w, bx, by, ch, k - 1);
        let idx = spec_block_index(w, bx, by, k - 1);
        let x = lab_fix(lab_img[idx], ch);
        let y = lab_fix(canvas_lab(s, idx), ch);
        lemma_fix_bound(lab_bits(lab_img[idx], ch));
        lemma_fix_bound(lab_bits(canvas_lab(s, idx), ch));
        assert((x - y) * (x - y) == x * x + y * y - 2 * (x * y) && (x + y) * (x + y) == x * x + y
            * y + 2 * (x * y)) by (nonlinear_arith);
        assert(0 <= x * x <= 429_496_729_600 && 0 <= y * y <= 429_496_729_600 && -429_496_729_600
            <= x * y <= 429_496_729_600) by (nonlinear_arith)
            requires
                -655360 <= x <= 655360,
                -655360 <= y <= 655360,
        ;
        lemma_sum_sq_step(k - 1, a1, q1, x);
        lemma_sum_sq_step(k - 1, a2, q2, y);
        lemma_sum_sq_step(k - 1, a1 - a2, q1 + q2 - 2 * p, x - y);
        lemma_sum_sq_step(k - 1, a1 + a2, q1 + q2 + 2 * p, x + y);
    }
}

/// The structural-similarity constant `C1 = 6.5025 = (0.01 * 255)^2`,
/// cleared of denominators: `C1 * 64^2 * FIX_SCALE^2`, exactly.
pub const SSIM_C1: i64 = 698_200_621_056;

/// The structural-similarity constant `C2 = 58.5225 = (0.03 * 255)^2`,
/// cleared of denominators: `C2 * 64^2 * FIX_SCALE^2`, exactly.
pub const SSIM_C2: i64 = 6_283_805_589_504;

/// The structural similarity of one block and channel from its five sums,
/// in fixed point at `FIX_SCALE`: the classic formula
/// `((2 m1 m2 + C1)(2 cov + C2)) / ((m1^2 + m2^2 + C1)(v1 + v2 + C2))`
/// over means, variances and the covariance of the 64 samples, with every
/// division by the sample count cleared into the constants.
pub open spec fn spec_ssim_value(a1: int, a2: int, q1: int, q2: int, p: int) -> int {
    let num_l = 2 * (a1 * a2) + SSIM_C1;
    let num_r = 2 * (64 * p - a1 * a2) + SSIM_C2;
    let den_l = a1 * a1 + a2 * a2 + SSIM_C1;
    let den_r = 64 * q1 - a1 * a1 + 64 * q2 - a2 * a2 + SSIM_C2;
    spec_div_trunc(num_l * num_r * FIX_SCALE, den_l * den_r)
}

/// A product of values bounded in magnitude is bounded by the product of
/// the bounds.
proof fn lemma_mul_bound(x: int, y: int, b: int, c: int)
    requires
        -b <= x <= b,
        -c <= y <= c,
        0 <= b,
        0 <= c,
    ensures
        -(b * c) <= x * y <= b * c,
{
    assert(-(b * c) <= x * y <= b * c) by (nonlinear_arith)
        requires
            -b <= x <= b,
            -c <= y <= c,
            0 <= b,
            0 <= c,
    ;
}

/// Compute the structural similarity of one block and channel from its
/// sums. The result never leaves `[-FIX_SCALE, FIX_SCALE]`: the numerator
/// factors are dominated by the denominator factors, which the power-mean
/// facts over the sums guarantee.
fn ssim_value(a1: i64, a2: i64, q1: i64, q2: i64, p: i64) -> (r: i64)
    requires
        -41_943_040 <= a1 <= 41_943_040,
        -41_943_040 <= a2 <= 41_943_040,
        0 <= q1 <= 27_487_790_694_400,
        0 <= q2 <= 27_487_790_694_400,
        -27_487_790_694_400 <= p <= 27_487_790_694_400,
        64 * q1 >= a1 * a1,
        64 * q2 >= a2 * a2,
        64 * (q1 + q2 - 2 * p) >= (a1 - a2) * (a1 - a2),
        64 * (q1 + q2 + 2 * p) >= (a1 + a2) * (a1 + a2),
    ensures
        r == spec_ssim_value(a1 as int, a2 as int, q1 as int, q2 as int, p as int),
        -FIX_SCALE <= r <= FIX_SCALE,
{
    let x1 = a1 as i128;
    let x2 = a2 as i128;
    let s1 = q1 as i128;
    let s2 = q2 as i128;
    let pr = p as i128;
    proof {
        lemma_mul_bound(x1 as int, x2 as int, 41_943_040, 41_943_040);
        lemma_mul_bound(x1 as int, x1 as int, 41_943_040, 41_943_040);
        lemma_mul_bound(x2 as int, x2 as int, 41_943_040, 41_943_040);
    }
    let num_l: i128 = 2 * (x1 * x2) + SSIM_C1 as i128;
    let num_r: i128 = 2 * (64 * pr - x1 * x2) + SSIM_C2 as i128;
    let den_l: i128 = x1 * x1 + x2 * x2 + SSIM_C1 as i128;
    let den_r: i128 = 64 * s1 - x1 * x1 + 64 * s2 - x2 * x2 + SSIM_C2 as i128;
    proof {
        assert((x1 - x2) * (x1 - x2) == x1 * x1 + x2 * x2 - 2 * (x1 * x2) && (x1 + x2) * (x1 + x2)
            == x1 * x1 + x2 * x2 + 2 * (x1 * x2) && (x1 - x2) * (x1 - x2) >= 0 && (x1 + x2) * (x1
            + x2) >= 0) by (nonlinear_arith);
        assert(num_l <= den_l && -den_l <= num_l && den_l >= SSIM_C1);
        assert(den_r >= SSIM_C2);
        assert(den_r - num_r == 64 * ((s1 + s2 - 2 * pr)) - (x1 - x2) * (x1 - x2) + (x1 - x2) * (x1
            - x2) - (x1 - x2) * (x1 - x2)) by (nonlinear_arith)
            requires
                num_r == 2 * (64 * pr - x1 * x2) + SSIM_C2 as i128,
                den_r == 64 * s1 - x1 * x1 + 64 * s2 - x2 * x2 + SSIM_C2 as i128,
                (x1 - x2) * (x1 - x2) == x1 * x1 + x2 * x2 - 2 * (x1 * x2),
        ;
        assert(den_r + num_r == 64 * ((s1 + s2 + 2 * pr)) - (x1 + x2) * (x1 + x2) + 2 * (
        SSIM_C2 as i128)) by (nonlinear_arith)
            requires
                num_r == 2 * (64 * pr - x1 * x2) + SSIM_C2 as i128,
                den_r == 64 * s1 - x1 * x1 + 64 * s2 - x2 * x2 + SSIM_C2 as i128,
                (x1 + x2) * (x1 + x2) == x1 * x1 + x2 * x2 + 2 * (x1 * x2),
        ;
        assert(num_r <= den_r && -den_r <= num_r);
        assert(den_l <= 4_000_000_000_000_000 && den_r <= 4_000_000_000_000_000);
        lemma_mul_bound(num_l as int, num_r as int, den_l as int, den_r as int);
        lemma_mul_bound(den_l as int, den_r as int, 4_000_000_000_000_000, 4_000_000_000_000_000);
    }
    let num: i128 = num_l * num_r;
    let den: i128 = den_l * den_r;
    proof {
        assert(den >= 1) by (nonlinear_arith)
            requires
                den == den_l * den_r,
                den_l >= 1,
                den_r >= 1,
        ;
        lemma_mul_bound(num as int, FIX_SCALE as int, den as int, FIX_SCALE as int);
        lemma_mul_bound(
            den as int,
            FIX_SCALE as int,
            20_000_000_000_000_000_000_000_000_000_000,
            5120,
        );
    }
    let scaled: i128 = num * (FIX_SCALE as i128);
    let r = div_trunc(scaled, den);
    proof {
        vstd::arithmetic::div_mod::lemma_div_multiples_vanish(FIX_SCALE as int, den as int);
        if scaled >= 0 {
            lemma_div_is_ordered(scaled as int, den * FIX_SCALE, den as int);
        } else {
            lemma_div_is_ordered((-scaled) as int, den * FIX_SCALE, den as int);
        }
    }
    r as i64
}

/// The three channels' structural similarity values of the block at
/// `(bx, by)`, summed.
pub open spec fn spec_block_ssim(lab_img: Seq<LabColor>, s: Seq<u8>, w: int, bx: int, by: int) -> int {
    let s0 = spec_block_sums(lab_img, s, w, bx, by, 0, 64);
    let s1 = spec_block_sums(lab_img, s, w, bx, by, 1, 64);
    let s2 = spec_block_sums(lab_img, s, w, bx, by, 2, 64);
    spec_ssim_value(s0.0, s0.1, s0.2, s0.3, s0.4) + spec_ssim_value(s1.0, s1.1, s1.2, s1.3, s1.4)
        + spec_ssim_value(s2.0, s2.1, s2.2, s2.3, s2.4)
}

/// The summed similarity over the first `n` whole 8x8 blocks, taken in
/// block row-major order over an `xb`-blocks-wide grid.
pub open spec fn spec_ssim_total(lab_img: Seq<LabColor>, s: Seq<u8>, w: int, xb: int, n: int) -> int
    decreases n,
{
    if n <= 0 {
        0
    } else {
        spec_ssim_total(lab_img, s, w, xb, n - 1) + spec_block_ssim(
            lab_img,
            s,
            w,
            (n - 1) % xb,
            (n - 1) / xb,
        )
    }
}

/// The mean-squared-error denominator per pixel: the channel count times
/// the squared 0.01 scaling times the squared fixed-point scale, so that
/// the score comes out at `SCORE_SCALE`.
pub const MSE_DEN_UNIT: i64 = 786_432_000_000;

/// The blended difference score of a canvas against a target projection,
/// at `SCORE_SCALE`: the blend ratio in thousandths (clamped to
/// `[0, 1000]`) weighs the per-pixel mean squared perceptual error
/// against the structural dissimilarity `(1 - mean ssim) / 2` over whole
/// 8x8 blocks; with no whole block, the structural term is zero and the
/// blend degrades to the error term alone. Every division truncates
/// toward zero.
pub open spec fn spec_score(
    lab_img: Seq<LabColor>,
    s: Seq<u8>,
    w: int,
    h: int,
    mse_milli: int,
) -> int {
    let ratio = if mse_milli > 1000 {
        1000
    } else {
        mse_milli
    };
    let wh = w * h;
    let mse_q = spec_div_trunc(spec_mse_sum(lab_img, s, wh) * SCORE_SCALE, MSE_DEN_UNIT * wh);
    let xb = w / 8;
    let yb = h / 8;
    let dssim_q = if xb == 0 || yb == 0 {
        0
    } else {
        let mean = spec_div_trunc(spec_ssim_total(lab_img, s, w, xb, xb * yb), 3 * (xb * yb));
        let scaled = spec_div_trunc(mean * SCORE_SCALE, FIX_SCALE as int);
        spec_div_trunc(SCORE_SCALE - scaled, 2)
    };
    spec_div_trunc(ratio * mse_q + (1000 - ratio) * dssim_q, 1000)
}

/// Accumulate the squared-difference sum over every pixel of the canvas.
fn mse_sum_exec(converter: &ColorConverter, lab_img: &Vec<LabColor>, canvas: &Canvas) -> (m: i128)
    requires
        converter.wf(),
        canvas.wf(),
        lab_img@.len() == canvas.spec_width() * canvas.spec_height(),
    ensures
        m == spec_mse_sum(
            lab_img@,
            canvas@,
            canvas.spec_width() * canvas.spec_height(),
        ),
        0 <= m <= (canvas.spec_width() * canvas.spec_height()) * PIXEL_SQ_MAX,
{
    let w = canvas.width();
    let h = canvas.height();
    proof {
        canvas.lemma_wf();
        assert(w * h <= 0x1_0000_0000) by (nonlinear_arith)
            requires
                w <= 0x1_0000,
                h <= 0x1_0000,
        ;
    }
    let count = (w as u64) * (h as u64);
    let mut m: i128 = 0;
    let mut i: u64 = 0;
    while i < count
        invariant
            converter.wf(),
            canvas.wf(),
            lab_img@.len() == canvas.spec_width() * canvas.spec_height(),
            w == canvas.spec_width(),
            h == canvas.spec_height(),
            count == w * h,
            count <= 0x1_0000_0000,
            i <= count,
            m == spec_mse_sum(lab_img@, canvas@, i as int),
            0 <= m <= (i as int) * PIXEL_SQ_MAX,
        decreases count - i,
    {
        let (cr, cg, cb) = canvas.rgb_at(i as usize);
        let lab2 = converter.get_lab(cr, cg, cb);
        let lab1 = lab_img[i as usize];
        let d0 = fix_of_bits(lab1.l) - fix_of_bits(lab2.l);
        let d1 = fix_of_bits(lab1.a) - fix_of_bits(lab2.a);
        let d2 = fix_of_bits(lab1.b) - fix_of_bits(lab2.b);
        proof {
            lemma_mul_bound(d0 as int, d0 as int, 1_310_720, 1_310_720);
            lemma_mul_bound(d1 as int, d1 as int, 1_310_720, 1_310_720);
            lemma_mul_bound(d2 as int, d2 as int, 1_310_720, 1_310_720);
            assert(lab2 == canvas_lab(canvas@, i as int));
        }
        let sq: i128 = (d0 as i128) * (d0 as i128) + (d1 as i128) * (d1 as i128) + (d2 as i128) * (
        d2 as i128);
        proof {
            assert(sq == spec_pixel_sq(lab_img@, canvas@, i as int));
            lemma_pixel_sq_bounds(lab_img@, canvas@, i as int);
        }
        m = m + sq;
        i = i + 1;
    }
    m
}

/// Compute the three channels' structural similarity of one whole 8x8
/// block, by one pass over its 64 samples.
#[verifier::rlimit(80)]
fn block_ssim_exec(
    converter: &ColorConverter,
    lab_img: &Vec<LabColor>,
    canvas: &Canvas,
    bx: u32,
    by: u32,
) -> (v: i64)
    requires
        converter.wf(),
        canvas.wf(),
        lab_img@.len() == canvas.spec_width() * canvas.spec_height(),
        bx < canvas.spec_width() / 8,
        by < canvas.spec_height() / 8,
    ensures
        v == spec_block_ssim(lab_img@, canvas@, canvas.spec_width() as int, bx as int, by as int),
        -3 * FIX_SCALE <= v <= 3 * FIX_SCALE,
{
    let w = canvas.width();
    let h = canvas.height();
    proof {
        canvas.lemma_wf();
        vstd::arithmetic::div_mod::lemma_fundamental_div_mod(w as int, 8);
        vstd::arithmetic::div_mod::lemma_fundamental_div_mod(h as int, 8);
    }
    let mut a1_0: i64 = 0;
    let mut a2_0: i64 = 0;
    let mut q1_0: i64 = 0;
    let mut q2_0: i64 = 0;
    let mut p_0: i64 = 0;
    let mut a1_1: i64 = 0;
    let mut a2_1: i64 = 0;
    let mut q1_1: i64 = 0;
    let mut q2_1: i64 = 0;
    let mut p_1: i64 = 0;
    let mut a1_2: i64 = 0;
    let mut a2_2: i64 = 0;
    let mut q1_2: i64 = 0;
    let mut q2_2: i64 = 0;
    let mut p_2: i64 = 0;
    let mut k: u64 = 0;
    while k < 64
        invariant
            converter.wf(),
            canvas.wf(),
            lab_img@.len() == canvas.spec_width() * canvas.spec_height(),
            w == canvas.spec_width(),
            h == canvas.spec_height(),
            1 <= w <= 0x1_0000,
            1 <= h <= 0x1_0000,
            bx < w / 8,
            by < h / 8,
            k <= 64,
            (a1_0 as int, a2_0 as int, q1_0 as int, q2_0 as int, p_0 as int) == spec_block_sums(
                lab_img@,
                canvas@,
                w as int,
                bx as int,
                by as int,
                0,
                k as int,
            ),
            (a1_1 as int, a2_1 as int, q1_1 as int, q2_1 as int, p_1 as int) == spec_block_sums(
                lab_img@,
                canvas@,
                w as int,
                bx as int,
                by as int,
                1,
                k as int,
            ),
            (a1_2 as int, a2_2 as int, q1_2 as int, q2_2 as int, p_2 as int) == spec_block_sums(
                lab_img@,
                canvas@,
                w as int,
                bx as int,
                by as int,
                2,
                k as int,
            ),
            -(k as int) * 655360 <= a1_0 <= (k as int) * 655360,
            -(k as int) * 655360 <= a2_0 <= (k as int) * 655360,
            -(k as int) * 655360 <= a1_1 <= (k as int) * 655360,
            -(k as int) * 655360 <= a2_1 <= (k as int) * 655360,
            -(k as int) * 655360 <= a1_2 <= (k as int) * 655360,
            -(k as int) * 655360 <= a2_2 <= (k as int) * 655360,
            0 <= q1_0 <= (k as int) * 429_496_729_600,
            0 <= q2_0 <= (k as int) * 429_496_729_600,
            0 <= q1_1 <= (k as int) * 429_496_729_600,
            0 <= q2_1 <= (k as int) * 429_496_729_600,
            0 <= q1_2 <= (k as int) * 429_496_729_600,
            0 <= q2_2 <= (k as int) * 429_496_729_600,
            -(k as int) * 429_496_729_600 <= p_0 <= (k as int) * 429_496_729_600,
            -(k as int) * 429_496_729_600 <= p_1 <= (k as int) * 429_496_729_600,
            -(k as int) * 429_496_729_600 <= p_2 <= (k as int) * 429_496_729_600,
        decreases 64 - k,
    {
        let row: u64 = 8 * (by as u64) + k / 8;
        let col: u64 = 8 * (bx as u64) + k % 8;
        proof {
            vstd::arithmetic::div_mod::lemma_fundamental_div_mod(w as int, 8);
            vstd::arithmetic::div_mod::lemma_fundamental_div_mod(h as int, 8);
            assert(col < w);
            assert(row < h);
            assert((row as int) * (w as int) + (col as int) < (w as int) * (h as int))
                by (nonlinear_arith)
                requires
                    row < h,
                    col < w,
                    0 <= row,
                    0 <= col,
                    1 <= w,
                    1 <= h,
            ;
            assert((row as int) * (w as int) <= 65535 * 65536) by (nonlinear_arith)
                requires
                    0 <= row < 0x1_0000,
                    0 <= w <= 0x1_0000,
            ;
        }
        let idx = ((row * (w as u64)) + col) as usize;
        let (cr, cg, cb) = canvas.rgb_at(idx);
        let lab2 = converter.get_lab(cr, cg, cb);
        let lab1 = lab_img[idx];
        let x0 = fix_of_bits(lab1.l);
        let y0 = fix_of_bits(lab2.l);
        let x1 = fix_of_bits(lab1.a);
        let y1 = fix_of_bits(lab2.a);
        let x2 = fix_of_bits(lab1.b);
        let y2 = fix_of_bits(lab2.b);
        proof {
            lemma_mul_bound(x0 as int, x0 as int, 655360, 655360);
            lemma_mul_bound(y0 as int, y0 as int, 655360, 655360);
            lemma_mul_bound(x0 as int, y0 as int, 655360, 655360);
            lemma_mul_bound(x1 as int, x1 as int, 655360, 655360);
            lemma_mul_bound(y1 as int, y1 as int, 655360, 655360);
            lemma_mul_bound(x1 as int, y1 as int, 655360, 655360);
            lemma_mul_bound(x2 as int, x2 as int, 655360, 655360);
            lemma_mul_bound(y2 as int, y2 as int, 655360, 655360);
            lemma_mul_bound(x2 as int, y2 as int, 655360, 655360);
            assert(x0 * x0 >= 0 && y0 * y0 >= 0 && x1 * x1 >= 0 && y1 * y1 >= 0 && x2 * x2 >= 0
                && y2 * y2 >= 0) by (nonlinear_arith);
            assert(idx as int == spec_block_index(w as int, bx as int, by as int, k as int));
            assert(lab2 == canvas_lab(canvas@, idx as int));
        }
        a1_0 = a1_0 + x0;
        a2_0 = a2_0 + y0;
        q1_0 = q1_0 + x0 * x0;
        q2_0 = q2_0 + y0 * y0;
        p_0 = p_0 + x0 * y0;
        a1_1 = a1_1 + x1;
        a2_1 = a2_1 + y1;
        q1_1 = q1_1 + x1 * x1;
        q2_1 = q2_1 + y1 * y1;
        p_1 = p_1 + x1 * y1;
        a1_2 = a1_2 + x2;
        a2_2 = a2_2 + y2;
        q1_2 = q1_2 + x2 * x2;
        q2_2 = q2_2 + y2 * y2;
        p_2 = p_2 + x2 * y2;
        k = k + 1;
    }
    proof {
        lemma_block_sums_facts(lab_img@, canvas@, w as int, bx as int, by as int, 0, 64);
        lemma_block_sums_facts(lab_img@, canvas@, w as int, bx as int, by as int, 1, 64);
        lemma_block_sums_facts(lab_img@, canvas@, w as int, bx as int, by as int, 2, 64);
    }
    let v0 = ssim_value(a1_0, a2_0, q1_0, q2_0, p_0);
    let v1 = ssim_value(a1_1, a2_1, q1_1, q2_1, p_1);
    let v2 = ssim_value(a1_2, a2_2, q1_2, q2_2, p_2);
    v0 + v1 + v2
}

/// Score a canvas against the target projection: the blend, by
/// `mse_milli` thousandths (clamped to `[0, 1000]`), of the mean squared
/// perceptual error with the structural dissimilarity over whole 8x8
/// blocks. Zero means a pixel-perfect match; lower is better; the result
/// is never negative.
pub fn diff(
    converter: &ColorConverter,
    lab_img: &Vec<LabColor>,
    canvas: &Canvas,
    mse_milli: u32,
) -> (score: i64)
    requires
        converter.wf(),
        canvas.wf(),
        lab_img@.len() == canvas.spec_width() * canvas.spec_height(),
    ensures
        score == spec_score(
            lab_img@,
            canvas@,
            canvas.spec_width() as int,
            canvas.spec_height() as int,
            mse_milli as int,
        ),
        0 <= score,
{
    let w = canvas.width();
    let h = canvas.height();
    proof {
        canvas.lemma_wf();
        assert(1 <= w * h <= 0x1_0000_0000) by (nonlinear_arith)
            requires
                1 <= w <= 0x1_0000,
                1 <= h <= 0x1_0000,
        ;
    }
    let ghost wh: int = (w as int) * (h as int);
    let count = (w as u64) * (h as u64);
    let msum = mse_sum_exec(converter, lab_img, canvas);
    let mse_den: i128 = (MSE_DEN_UNIT as i128) * (count as i128);
    let mnum: i128 = msum * (SCORE_SCALE as i128);
    let mse_q = div_trunc(mnum, mse_den);
    proof {
        assert(mnum <= wh * (PIXEL_SQ_MAX * SCORE_SCALE)) by (nonlinear_arith)
            requires
                msum <= wh * PIXEL_SQ_MAX,
                mnum == msum * SCORE_SCALE,
                0 <= wh,
        ;
        lemma_div_multiples_vanish_quotient(wh, PIXEL_SQ_MAX * SCORE_SCALE, MSE_DEN_UNIT as int);
        assert(mse_den == wh * (MSE_DEN_UNIT as int)) by (nonlinear_arith)
            requires
                mse_den == MSE_DEN_UNIT * (wh as int),
        ;
        lemma_div_is_ordered(mnum as int, wh * (PIXEL_SQ_MAX * SCORE_SCALE), mse_den as int);
        assert(mse_q <= 28_147_497_671_065);
    }
    let xb = w / 8;
    let yb = h / 8;
    let dssim_q: i128 = if xb == 0 || yb == 0 {
        0
    } else {
        proof {
            assert(1 <= xb * yb <= 0x1_0000_0000) by (nonlinear_arith)
                requires
                    1 <= xb <= 0x1_0000,
                    1 <= yb <= 0x1_0000,
            ;
        }
        let nblocks = (xb as u64) * (yb as u64);
        let mut total: i128 = 0;
        let mut n: u64 = 0;
        while n < nblocks
            invariant
                converter.wf(),
                canvas.wf(),
                lab_img@.len() == canvas.spec_width() * canvas.spec_height(),
                w == canvas.spec_width(),
                h == canvas.spec_height(),
                xb == w / 8,
                yb == h / 8,
                1 <= xb,
                1 <= yb,
                nblocks == xb * yb,
                nblocks <= 0x1_0000_0000,
                n <= nblocks,
                total == spec_ssim_total(lab_img@, canvas@, w as int, xb as int, n as int),
                -((n as int) * 15360) <= total <= (n as int) * 15360,
            decreases nblocks - n,
        {
            let bx = (n % (xb as u64)) as u32;
            let by = (n / (xb as u64)) as u32;
            proof {
                vstd::arithmetic::div_mod::lemma_multiply_divide_lt(
                    n as int,
                    xb as int,
                    yb as int,
                );
            }
            let v = block_ssim_exec(converter, lab_img, canvas, bx, by);
            total = total + (v as i128);
            n = n + 1;
        }
        let kdiv: i128 = 3 * (nblocks as i128);
        let mean = div_trunc(total, kdiv);
        proof {
            assert((nblocks as int) * 15360 == kdiv * 5120);
            vstd::arithmetic::div_mod::lemma_div_multiples_vanish(5120, kdiv as int);
            if total >= 0 {
                lemma_div_is_ordered(total as int, kdiv * 5120, kdiv as int);
            } else {
                lemma_div_is_ordered((-total) as int, kdiv * 5120, kdiv as int);
            }
        }
        let scaled = div_trunc(mean * (SCORE_SCALE as i128), FIX_SCALE as i128);
        proof {
            vstd::arithmetic::div_mod::lemma_div_multiples_vanish(
                SCORE_SCALE as int,
                FIX_SCALE as int,
            );
            if mean >= 0 {
                lemma_div_is_ordered(
                    (mean * (SCORE_SCALE as i128)) as int,
                    (FIX_SCALE as int) * (SCORE_SCALE as int),
                    FIX_SCALE as int,
                );
            } else {
                lemma_div_is_ordered(
                    (-(mean * (SCORE_SCALE as i128))) as int,
                    (FIX_SCALE as int) * (SCORE_SCALE as int),
                    FIX_SCALE as int,
                );
            }
        }
        let dq = div_trunc((SCORE_SCALE as i128) - scaled, 2);
        proof {
            lemma_div_is_ordered(
                ((SCORE_SCALE as i128) - scaled) as int,
                2 * (SCORE_SCALE as int),
                2,
            );
        }
        dq
    };
    let ratio: i128 = if mse_milli > 1000 {
        1000
    } else {
        mse_milli as i128
    };
    proof {
        lemma_mul_bound(ratio as int, mse_q as int, 1000, 28_147_497_671_065);
        lemma_mul_bound((1000 - ratio) as int, dssim_q as int, 1000, SCORE_SCALE as int);
        assert(ratio * mse_q >= 0 && (1000 - ratio) * dssim_q >= 0) by (nonlinear_arith)
            requires
                0 <= ratio <= 1000,
                0 <= mse_q,
                0 <= dssim_q,
        ;
    }
    let blended: i128 = ratio * mse_q + (1000 - ratio) * dssim_q;
    let sc = div_trunc(blended, 1000);
    sc as i64
}

/// With the target projection matching the canvas, every pixel's squared
/// difference vanishes, so the error sum is zero.
proof fn lemma_self_mse_zero(lab_img: Seq<LabColor>, s: Seq<u8>, w: int, h: int, n: int)
    requires
        0 <= n <= w * h,
        forall|i: int| 0 <= i < w * h ==> #[trigger] lab_img[i] == canvas_lab(s, i),
    ensures
        spec_mse_sum(lab_img, s, n) == 0,
    decreases n,
{
    if n > 0 {
        lemma_self_mse_zero(lab_img, s, w, h, n - 1);
        assert(lab_img[n - 1] == canvas_lab(s, n - 1));
        assert(spec_pixel_sq(lab_img, s, n - 1) == 0);
    }
}

/// With the target matching the canvas, a block's target sums equal its
/// canvas sums and the product sum equals the square sums.
proof fn lemma_self_block_sums(
    lab_img: Seq<LabColor>,
    s: Seq<u8>,
    w: int,
    h: int,
    bx: int,
    by: int,
    ch: int,
    k: int,
)
    requires
        0 <= k <= 64,
        0 <= bx < w / 8,
        0 <= by < h / 8,
        1 <= w,
        1 <= h,
        forall|i: int| 0 <= i < w * h ==> #[trigger] lab_img[i] == canvas_lab(s, i),
    ensures
        ({
            let (a1, a2, q1, q2, p) = spec_block_sums(lab_img, s, w, bx, by, ch, k);
            a1 == a2 && q1 == q2 && q1 == p
        }),
    decreases k,
{
    if k > 0 {
        lemma_self_block_sums(lab_img, s, w, h, bx, by, ch, k - 1);
        let idx = spec_block_index(w, bx, by, k - 1);
        vstd::arithmetic::div_mod::lemma_fundamental_div_mod(w, 8);
        vstd::arithmetic::div_mod::lemma_fundamental_div_mod(h, 8);
        let row = 8 * by + (k - 1) / 8;
        let col = 8 * bx + (k - 1) % 8;
        assert(0 <= col < w && 0 <= row < h);
        assert(0 <= row * w + col < w * h) by (nonlinear_arith)
            requires
                0 <= row < h,
                0 <= col < w,
                1 <= w,
        ;
        assert(lab_img[idx] == canvas_lab(s, idx));
    }
}

/// With the target matching the canvas, each block's three similarity
/// values are exactly one, `3 * FIX_SCALE` in fixed point together.
proof fn lemma_self_block_ssim(
    lab_img: Seq<LabColor>,
    s: Seq<u8>,
    w: int,
    h: int,
    bx: int,
    by: int,
)
    requires
        0 <= bx < w / 8,
        0 <= by < h / 8,
        1 <= w,
        1 <= h,
        forall|i: int| 0 <= i < w * h ==> #[trigger] lab_img[i] == canvas_lab(s, i),
    ensures
        spec_block_ssim(lab_img, s, w, bx, by) == 3 * FIX_SCALE,
{
    lemma_self_channel_ssim(lab_img, s, w, h, bx, by, 0);
    lemma_self_channel_ssim(lab_img, s, w, h, bx, by, 1);
    lemma_self_channel_ssim(lab_img, s, w, h, bx, by, 2);
    assert(spec_block_ssim(lab_img, s, w, bx, by) == 3 * FIX_SCALE);
}

/// With the target matching the canvas, one channel's similarity over a
/// block is exactly one: `FIX_SCALE` in fixed point.
proof fn lemma_self_channel_ssim(
    lab_img: Seq<LabColor>,
    s: Seq<u8>,
    w: int,
    h: int,
    bx: int,
    by: int,
    ch: int,
)
    requires
        0 <= bx < w / 8,
        0 <= by < h / 8,
        1 <= w,
        1 <= h,
        forall|i: int| 0 <= i < w * h ==> #[trigger] lab_img[i] == canvas_lab(s, i),
    ensures
        ({
            let (a1, a2, q1, q2, p) = spec_block_sums(lab_img, s, w, bx, by, ch, 64);
            spec_ssim_value(a1, a2, q1, q2, p) == FIX_SCALE
        }),
{
    {
        lemma_self_block_sums(lab_img, s, w, h, bx, by, ch, 64);
        lemma_block_sums_facts(lab_img, s, w, bx, by, ch, 64);
        let (a1, a2, q1, q2, p) = spec_block_sums(lab_img, s, w, bx, by, ch, 64);
        let num_l = 2 * (a1 * a2) + SSIM_C1;
        let num_r = 2 * (64 * p - a1 * a2) + SSIM_C2;
        let den_l = a1 * a1 + a2 * a2 + SSIM_C1;
        let den_r = 64 * q1 - a1 * a1 + 64 * q2 - a2 * a2 + SSIM_C2;
        assert(num_l == den_l && num_r == den_r);
        assert(a1 * a1 >= 0) by (nonlinear_arith);
        assert(den_l > 0 && den_r > 0);
        let den = den_l * den_r;
        assert(den > 0) by (nonlinear_arith)
            requires
                den == den_l * den_r,
                den_l > 0,
                den_r > 0,
        ;
        assert(num_l * num_r * FIX_SCALE == den * FIX_SCALE) by (nonlinear_arith)
            requires
                num_l == den_l,
                num_r == den_r,
                den == den_l * den_r,
        ;
        vstd::arithmetic::div_mod::lemma_div_multiples_vanish(FIX_SCALE as int, den);
        assert(den * FIX_SCALE >= 0) by (nonlinear_arith)
            requires
                den > 0,
        ;
    }
}

/// With the target matching the canvas, the summed similarity over the
/// first `n` blocks is `n` blocks of three perfect channels each.
proof fn lemma_self_ssim_total(lab_img: Seq<LabColor>, s: Seq<u8>, w: int, h: int, n: int)
    requires
        1 <= w,
        1 <= h,
        1 <= w / 8,
        1 <= h / 8,
        0 <= n <= (w / 8) * (h / 8),
        forall|i: int| 0 <= i < w * h ==> #[trigger] lab_img[i] == canvas_lab(s, i),
    ensures
        spec_ssim_total(lab_img, s, w, w / 8, n) == n * (3 * FIX_SCALE),
    decreases n,
{
    if n > 0 {
        lemma_self_ssim_total(lab_img, s, w, h, n - 1);
        let xb = w / 8;
        let yb = h / 8;
        vstd::arithmetic::div_mod::lemma_multiply_divide_lt(n - 1, xb, yb);
        assert(0 <= (n - 1) % xb < xb);
        lemma_self_block_ssim(lab_img, s, w, h, (n - 1) % xb, (n - 1) / xb);
        assert(spec_ssim_total(lab_img, s, w, xb, n) == spec_ssim_total(lab_img, s, w, xb, n - 1)
            + spec_block_ssim(lab_img, s, w, (n - 1) % xb, (n - 1) / xb));
        assert(spec_ssim_total(lab_img, s, w, xb, n - 1) == (n - 1) * (3 * FIX_SCALE));
        assert(spec_block_ssim(lab_img, s, w, (n - 1) % xb, (n - 1) / xb) == 3 * FIX_SCALE);
        assert((n - 1) * (3 * FIX_SCALE) + 3 * FIX_SCALE == n * (3 * FIX_SCALE))
            by (nonlinear_arith);
        assert(spec_ssim_total(lab_img, s, w, w / 8, n) == n * (3 * FIX_SCALE));
    } else {
        assert(spec_ssim_total(lab_img, s, w, w / 8, n) == 0);
        assert(n * (3 * FIX_SCALE) == 0) by (nonlinear_arith)
            requires
                n == 0,
        ;
    }
}

/// Self-difference is zero: scoring a canvas against the projection of
/// its very own pixels yields exactly zero, whatever the blend ratio.
pub proof fn lemma_self_score_zero(
    lab_img: Seq<LabColor>,
    s: Seq<u8>,
    w: int,
    h: int,
    mse_milli: int,
)
    requires
        1 <= w,
        1 <= h,
        forall|i: int| 0 <= i < w * h ==> #[trigger] lab_img[i] == canvas_lab(s, i),
    ensures
        spec_score(lab_img, s, w, h, mse_milli) == 0,
{
    let ratio = if mse_milli > 1000 {
        1000
    } else {
        mse_milli
    };
    let wh = w * h;
    assert(wh >= 1) by (nonlinear_arith)
        requires
            w >= 1,
            h >= 1,
            wh == w * h,
    ;
    lemma_self_mse_zero(lab_img, s, w, h, wh);
    let mden = MSE_DEN_UNIT * wh;
    assert(mden > 0) by (nonlinear_arith)
        requires
            wh >= 1,
            mden == MSE_DEN_UNIT * wh,
    ;
    vstd::arithmetic::div_mod::lemma_div_of0(mden);
    let xb = w / 8;
    let yb = h / 8;
    if xb >= 1 && yb >= 1 {
        let nb = xb * yb;
        assert(nb >= 1) by (nonlinear_arith)
            requires
                xb >= 1,
                yb >= 1,
                nb == xb * yb,
        ;
        lemma_self_ssim_total(lab_img, s, w, h, nb);
        let total = spec_ssim_total(lab_img, s, w, xb, nb);
        let kdiv = 3 * nb;
        assert(total == kdiv * FIX_SCALE && total >= 0) by (nonlinear_arith)
            requires
                total == nb * (3 * FIX_SCALE),
                kdiv == 3 * nb,
                nb >= 1,
        ;
        vstd::arithmetic::div_mod::lemma_div_multiples_vanish(FIX_SCALE as int, kdiv);
        assert(spec_div_trunc(total, kdiv) == FIX_SCALE);
        vstd::arithmetic::div_mod::lemma_div_multiples_vanish(SCORE_SCALE as int, FIX_SCALE as int);
        assert(spec_div_trunc(FIX_SCALE * SCORE_SCALE, FIX_SCALE as int) == SCORE_SCALE);
        vstd::arithmetic::div_mod::lemma_div_of0(2);
        assert(spec_div_trunc(SCORE_SCALE - SCORE_SCALE, 2) == 0);
    }
    vstd::arithmetic::div_mod::lemma_div_of0(1000);
    assert(ratio * 0 + (1000 - ratio) * 0 == 0) by (nonlinear_arith);
    assert(spec_score(lab_img, s, w, h, mse_milli) == spec_div_trunc(0, 1000));
}

} // verus!
