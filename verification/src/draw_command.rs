//! The parametric ellipse primitive of the search: an axis-aligned ellipse
//! given by center, radii, rotation angle in degrees and a fill color, with
//! random generation and paired mutation over an annealed brush schedule.

use vstd::prelude::*;

verus! {

use vstd::arithmetic::div_mod::{
    lemma_div_is_ordered,
    lemma_div_multiples_vanish_quotient,
    lemma_div_of0,
};
use vstd::arithmetic::mul::lemma_mul_upper_bound;

/// An 8-bit RGBA color. The alpha channel is carried along with the color;
/// committed canvases hold only fully opaque pixels.
#[derive(Clone, Copy, Debug, PartialEq, Eq, Structural)]
pub struct Rgba {
    pub r: u8,
    pub g: u8,
    pub b: u8,
    pub a: u8,
}

/// One draw command: a filled ellipse centered at `(x, y)` with radii
/// `(rx, ry)`, rotated by `angle` degrees, filled with `color`.
///
/// A value is never mutated in place: mutation produces fresh commands.
#[derive(Clone, Copy, Debug, PartialEq, Eq, Structural)]
pub struct DrawCommand {
    pub x: u32,
    pub y: u32,
    pub rx: u32,
    pub ry: u32,
    pub angle: i32,
    pub color: Rgba,
}

/// Largest accepted brush scale, in thousandths: a scale of 16.0.
pub const MAX_BRUSH_MILLI: u32 = 16000;

/// Largest accepted image dimension, in pixels.
pub const MAX_DIMENSION: u32 = 65536;

impl DrawCommand {
    /// The command's center lies inside a `w` by `h` image and its angle lies
    /// in the wrapped degree range that `mod_angle` maintains.
    pub open spec fn wf(self, w: u32, h: u32) -> bool {
        &&& self.x < w
        &&& self.y < h
        &&& -90 <= self.angle <= 180
    }

    /// The all-zero command with an opaque black color.
    pub fn new() -> (cmd: DrawCommand)
        ensures
            cmd == (DrawCommand {
                x: 0u32,
                y: 0u32,
                rx: 0u32,
                ry: 0u32,
                angle: 0i32,
                color: Rgba { r: 0u8, g: 0u8, b: 0u8, a: 255u8 },
            }),
    {
        let color = Rgba { r: 0, g: 0, b: 0, a: 255 };
        DrawCommand { x: 0, y: 0, rx: 0, ry: 0, angle: 0, color }
    }
}

/// `value` pushed into `[min, max]`: `min` wins below, `max` wins above.
/// When `min > max` the lower test is made first, so a value under `min`
/// comes out as `min` and any other as `max`.
pub open spec fn spec_clamp(value: int, min: int, max: int) -> int {
    if value < min {
        min
    } else if value > max {
        max
    } else {
        value
    }
}

/// Clamp `value` to `[min, max]`, lower bound first.
pub fn clamp(value: i64, min: i64, max: i64) -> (r: i64)
    ensures
        r == spec_clamp(value as int, min as int, max as int),
{
    if value < min {
        min
    } else if value > max {
        max
    } else {
        value
    }
}

/// The angle wrap of mutation: add 180 to a negative result, subtract 180
/// when the *input* lay above 180. The two tests read different values on
/// purpose; the asymmetry is part of the command model.
pub open spec fn spec_mod_angle(angle: int) -> int {
    let lifted = if angle < 0 {
        angle + 180
    } else {
        angle
    };
    if angle > 180 {
        lifted - 180
    } else {
        lifted
    }
}

/// Wrap a perturbed angle back into range. Keeps `[-90, 180]` closed under
/// perturbations of at most 90 degrees.
pub fn mod_angle(angle: i32) -> (r: i32)
    requires
        i32::MIN + 180 <= angle <= i32::MAX - 180,
    ensures
        r == spec_mod_angle(angle as int),
{
    let mut res = angle;
    if res < 0 {
        res = res + 180;
    }
    if angle > 180 {
        res = res - 180;
    }
    res
}

/// The annealed brush radius bound after `t` of `total` generations with a
/// brush scale of `brush_milli` thousandths, over an image dimension of
/// `image_size` pixels: one more than half the dimension scaled by the
/// squared remaining-time fraction times the squared brush scale.
pub open spec fn spec_brush_size(t: int, total: int, brush_milli: int, image_size: int) -> int
    recommends
        0 <= t <= total,
        1 <= total,
{
    1 + (brush_milli * brush_milli * (total - t) * (total - t) * image_size) / (2_000_000 * total
        * total)
}

/// Largest value `spec_brush_size` can take within the accepted bounds.
pub const MAX_BRUSH_SIZE: u32 = 8_388_481;

/// The annealed brush radius bound, shrinking quadratically as `t` runs
/// from `0` to `total`.
pub fn brush_size(t: u32, total: u32, brush_milli: u32, image_size: u32) -> (size: u32)
    requires
        1 <= total,
        t <= total,
        brush_milli <= MAX_BRUSH_MILLI,
        image_size < MAX_DIMENSION,
    ensures
        size == spec_brush_size(t as int, total as int, brush_milli as int, image_size as int),
        1 <= size <= MAX_BRUSH_SIZE,
{
    let bm = brush_milli as u128;
    let tt = (total - t) as u128;
    let tot = total as u128;
    let dim = image_size as u128;
    proof {
        lemma_mul_upper_bound(bm as int, 16000, bm as int, 16000);
        lemma_mul_upper_bound((bm * bm) as int, 256_000_000, tt as int, 0xffff_ffff);
        lemma_mul_upper_bound(
            (bm * bm * tt) as int,
            (256_000_000 * 0xffff_ffff) as int,
            tt as int,
            0xffff_ffff,
        );
        lemma_mul_upper_bound(
            (bm * bm * tt * tt) as int,
            (256_000_000 * 0xffff_ffff * 0xffff_ffff) as int,
            dim as int,
            65535,
        );
        lemma_mul_upper_bound(2_000_000, 2_000_000, tot as int, 0xffff_ffff);
        lemma_mul_upper_bound(
            (2_000_000 * tot) as int,
            (2_000_000 * 0xffff_ffff) as int,
            tot as int,
            0xffff_ffff,
        );
    }
    let num = bm * bm * tt * tt * dim;
    let den = 2_000_000u128 * tot * tot;
    proof {
        assert(den >= 2_000_000) by (nonlinear_arith)
            requires
                tot >= 1,
                den == 2_000_000 * tot * tot,
        ;
    }
    let q = num / den;
    proof {
        lemma_brush_size_quotient_bound(bm as int, tt as int, tot as int, dim as int);
    }
    1 + (q as u32)
}

/// The quotient inside `spec_brush_size` is at most `MAX_BRUSH_SIZE - 1`
/// whenever the scale and dimension are within the accepted bounds.
proof fn lemma_brush_size_quotient_bound(bm: int, tt: int, tot: int, dim: int)
    requires
        0 <= bm <= 16000,
        0 <= tt <= tot,
        1 <= tot,
        0 <= dim < 65536,
    ensures
        0 <= (bm * bm * tt * tt * dim) / (2_000_000 * tot * tot) <= 8_388_480,
{
    let num = bm * bm * tt * tt * dim;
    let cap = bm * bm * dim;
    let den = 2_000_000 * tot * tot;
    assert(0 <= num && num <= (tot * tot) * cap && 0 < den && den == (tot * tot) * 2_000_000
        && cap <= 16000 * 16000 * 65535) by (nonlinear_arith)
        requires
            0 <= bm <= 16000,
            0 <= tt <= tot,
            1 <= tot,
            0 <= dim < 65536,
            num == bm * bm * tt * tt * dim,
            cap == bm * bm * dim,
            den == 2_000_000 * tot * tot,
    ;
    lemma_div_is_ordered(num, (tot * tot) * cap, den);
    lemma_div_multiples_vanish_quotient(tot * tot, cap, 2_000_000);
    lemma_div_is_ordered(cap, (16000 * 16000 * 65535) as int, 2_000_000);
    assert(num / den >= 0) by {
        vstd::arithmetic::div_mod::lemma_div_pos_is_pos(num, den);
    }
}

/// The brush schedule anneals: the radius bound never grows as time
/// advances, and it reaches its minimum of one when `t == total`.
pub proof fn lemma_brush_size_annealing(
    t1: int,
    t2: int,
    total: int,
    brush_milli: int,
    image_size: int,
)
    requires
        0 <= t1 <= t2 <= total,
        1 <= total,
        0 <= brush_milli,
        0 <= image_size,
    ensures
        spec_brush_size(t2, total, brush_milli, image_size) <= spec_brush_size(
            t1,
            total,
            brush_milli,
            image_size,
        ),
        spec_brush_size(total, total, brush_milli, image_size) == 1,
{
    let n1 = brush_milli * brush_milli * (total - t1) * (total - t1) * image_size;
    let n2 = brush_milli * brush_milli * (total - t2) * (total - t2) * image_size;
    let den = 2_000_000 * total * total;
    assert(n2 <= n1 && 0 < den) by (nonlinear_arith)
        requires
            0 <= t1 <= t2 <= total,
            1 <= total,
            0 <= brush_milli,
            0 <= image_size,
            n1 == brush_milli * brush_milli * (total - t1) * (total - t1) * image_size,
            n2 == brush_milli * brush_milli * (total - t2) * (total - t2) * image_size,
            den == 2_000_000 * total * total,
    ;
    lemma_div_is_ordered(n2, n1, den);
    assert(brush_milli * brush_milli * (total - total) * (total - total) * image_size == 0)
        by (nonlinear_arith);
    lemma_div_of0(den);
}

/// Declares rand's thread-local generator so that library code can hold and
/// pass one; the library never reads its state.
#[verifier::external_type_specification]
#[verifier::external_body]
pub struct ExThreadRng(rand::rngs::ThreadRng);

/// Relies on rand's `gen_range` over an inclusive integer range: it returns
/// a value inside the range, and panics only when the range is empty.
#[verifier::external_body]
fn rnd_u32(rng: &mut rand::rngs::ThreadRng, lo: u32, hi: u32) -> (r: u32)
    requires
        lo <= hi,
    ensures
        lo <= r <= hi,
{
    rand::Rng::gen_range(rng, lo..=hi)
}

/// Relies on rand's `gen_range` over an inclusive integer range: it returns
/// a value inside the range, and panics only when the range is empty.
#[verifier::external_body]
fn rnd_i32(rng: &mut rand::rngs::ThreadRng, lo: i32, hi: i32) -> (r: i32)
    requires
        lo <= hi,
    ensures
        lo <= r <= hi,
{
    rand::Rng::gen_range(rng, lo..=hi)
}

/// The value of one of the eight scalar properties that mutation may
/// perturb: center coordinates, radii, angle, and the three color channels.
pub open spec fn prop_value(cmd: DrawCommand, prop: u8) -> int {
    if prop == 0 {
        cmd.x as int
    } else if prop == 1 {
        cmd.y as int
    } else if prop == 2 {
        cmd.rx as int
    } else if prop == 3 {
        cmd.ry as int
    } else if prop == 4 {
        cmd.angle as int
    } else if prop == 5 {
        cmd.color.r as int
    } else if prop == 6 {
        cmd.color.g as int
    } else {
        cmd.color.b as int
    }
}

/// The sibling pair that mutating property `prop` of `cmd` by `d` yields:
/// the first command takes the positive perturbation, the second the
/// negative one, each pushed back into its own domain; all other fields are
/// kept. Coordinates clamp to the image, radii to `[1, (dimension-1)/2]`,
/// color channels to `[0, 255]`, and the angle wraps through
/// `spec_mod_angle`.
pub open spec fn spec_mutate(w: u32, h: u32, cmd: DrawCommand, prop: u8, d: u32) -> (
    DrawCommand,
    DrawCommand,
)
    recommends
        1 <= w,
        1 <= h,
        prop <= 7,
{
    let w1 = w - 1;
    let h1 = h - 1;
    if prop == 0 {
        (
            DrawCommand { x: spec_clamp(cmd.x + d, 0, w1) as u32, ..cmd },
            DrawCommand { x: spec_clamp(cmd.x - d, 0, w1) as u32, ..cmd },
        )
    } else if prop == 1 {
        (
            DrawCommand { y: spec_clamp(cmd.y + d, 0, h1) as u32, ..cmd },
            DrawCommand { y: spec_clamp(cmd.y - d, 0, h1) as u32, ..cmd },
        )
    } else if prop == 2 {
        (
            DrawCommand { rx: spec_clamp(cmd.rx + d, 1, w1 / 2) as u32, ..cmd },
            DrawCommand { rx: spec_clamp(cmd.rx - d, 1, w1 / 2) as u32, ..cmd },
        )
    } else if prop == 3 {
        (
            DrawCommand { ry: spec_clamp(cmd.ry + d, 1, h1 / 2) as u32, ..cmd },
            DrawCommand { ry: spec_clamp(cmd.ry - d, 1, h1 / 2) as u32, ..cmd },
        )
    } else if prop == 4 {
        (
            DrawCommand { angle: spec_mod_angle(cmd.angle + d) as i32, ..cmd },
            DrawCommand { angle: spec_mod_angle(cmd.angle - d) as i32, ..cmd },
        )
    } else if prop == 5 {
        (
            DrawCommand {
                color: Rgba { r: spec_clamp(cmd.color.r + d, 0, 255) as u8, ..cmd.color },
                ..cmd
            },
            DrawCommand {
                color: Rgba { r: spec_clamp(cmd.color.r - d, 0, 255) as u8, ..cmd.color },
                ..cmd
            },
        )
    } else if prop == 6 {
        (
            DrawCommand {
                color: Rgba { g: spec_clamp(cmd.color.g + d, 0, 255) as u8, ..cmd.color },
                ..cmd
            },
            DrawCommand {
                color: Rgba { g: spec_clamp(cmd.color.g - d, 0, 255) as u8, ..cmd.color },
                ..cmd
            },
        )
    } else {
        (
            DrawCommand {
                color: Rgba { b: spec_clamp(cmd.color.b + d, 0, 255) as u8, ..cmd.color },
                ..cmd
            },
            DrawCommand {
                color: Rgba { b: spec_clamp(cmd.color.b - d, 0, 255) as u8, ..cmd.color },
                ..cmd
            },
        )
    }
}

impl DrawCommand {
    /// Apply the deterministic half of mutation: perturb property `prop` of
    /// `cmd` by `+d` and `-d`, clamping or wrapping each sibling back into
    /// its domain.
    pub fn mutate_with(w: u32, h: u32, cmd: &DrawCommand, prop: u8, d: u32) -> (pair: (
        DrawCommand,
        DrawCommand,
    ))
        requires
            1 <= w,
            1 <= h,
            prop <= 7,
            cmd.wf(w, h),
            prop == 4 ==> d <= 90,
        ensures
            pair == spec_mutate(w, h, *cmd, prop, d),
            pair.0.wf(w, h),
            pair.1.wf(w, h),
    {
        let w1 = (w - 1) as i64;
        let h1 = (h - 1) as i64;
        let dd = d as i64;
        let mut cmd1 = *cmd;
        let mut cmd2 = *cmd;
        if prop == 0 {
            cmd1.x = clamp(cmd.x as i64 + dd, 0, w1) as u32;
            cmd2.x = clamp(cmd.x as i64 - dd, 0, w1) as u32;
        } else if prop == 1 {
            cmd1.y = clamp(cmd.y as i64 + dd, 0, h1) as u32;
            cmd2.y = clamp(cmd.y as i64 - dd, 0, h1) as u32;
        } else if prop == 2 {
            cmd1.rx = clamp(cmd.rx as i64 + dd, 1, w1 / 2) as u32;
            cmd2.rx = clamp(cmd.rx as i64 - dd, 1, w1 / 2) as u32;
        } else if prop == 3 {
            cmd1.ry = clamp(cmd.ry as i64 + dd, 1, h1 / 2) as u32;
            cmd2.ry = clamp(cmd.ry as i64 - dd, 1, h1 / 2) as u32;
        } else if prop == 4 {
            cmd1.angle = mod_angle(cmd.angle + d as i32);
            cmd2.angle = mod_angle(cmd.angle - d as i32);
        } else if prop == 5 {
            cmd1.color.r = clamp(cmd.color.r as i64 + dd, 0, 255) as u8;
            cmd2.color.r = clamp(cmd.color.r as i64 - dd, 0, 255) as u8;
        } else if prop == 6 {
            cmd1.color.g = clamp(cmd.color.g as i64 + dd, 0, 255) as u8;
            cmd2.color.g = clamp(cmd.color.g as i64 - dd, 0, 255) as u8;
        } else {
            cmd1.color.b = clamp(cmd.color.b as i64 + dd, 0, 255) as u8;
            cmd2.color.b = clamp(cmd.color.b as i64 - dd, 0, 255) as u8;
        }
        (cmd1, cmd2)
    }

    /// The delta `d` lies in the range that mutation draws it from for
    /// property `prop`: image-scaled for the center, annealed for the radii,
    /// up to 4 degrees for the angle and up to 8 for a color channel.
    pub open spec fn valid_delta(
        w: u32,
        h: u32,
        t: u32,
        total: u32,
        brush_milli: u32,
        prop: u8,
        d: u32,
    ) -> bool {
        &&& prop <= 7
        &&& 1 <= d
        &&& prop == 0 ==> d <= 2 + (w - 1) / 100
        &&& prop == 1 ==> d <= 2 + (h - 1) / 100
        &&& prop == 2 ==> d <= spec_brush_size(t as int, total as int, brush_milli as int, w - 1)
        &&& prop == 3 ==> d <= spec_brush_size(t as int, total as int, brush_milli as int, h - 1)
        &&& prop == 4 ==> d <= 4
        &&& prop >= 5 ==> d <= 8
    }

    /// Randomized paired mutation: pick one of the eight scalar properties
    /// uniformly, draw a bounded random delta for it, and return the
    /// positive/negative sibling pair that `spec_mutate` describes.
    pub fn mutate(
        w: u32,
        h: u32,
        t: u32,
        total: u32,
        cmd: &DrawCommand,
        rng: &mut rand::rngs::ThreadRng,
        brush_milli: u32,
    ) -> (pair: (DrawCommand, DrawCommand))
        requires
            1 <= w <= MAX_DIMENSION,
            1 <= h <= MAX_DIMENSION,
            1 <= total,
            t <= total,
            brush_milli <= MAX_BRUSH_MILLI,
            cmd.wf(w, h),
        ensures
            pair.0.wf(w, h),
            pair.1.wf(w, h),
            exists|prop: u8, d: u32|
                Self::valid_delta(w, h, t, total, brush_milli, prop, d) && pair == spec_mutate(
                    w,
                    h,
                    *cmd,
                    prop,
                    d,
                ),
    {
        let prop = rnd_u32(rng, 0, 7) as u8;
        let dmax: u32 = if prop == 0 {
            2 + (w - 1) / 100
        } else if prop == 1 {
            2 + (h - 1) / 100
        } else if prop == 2 {
            brush_size(t, total, brush_milli, w - 1)
        } else if prop == 3 {
            brush_size(t, total, brush_milli, h - 1)
        } else if prop == 4 {
            4
        } else {
            8
        };
        let d = rnd_u32(rng, 1, dmax);
        let pair = Self::mutate_with(w, h, cmd, prop, d);
        proof {
            assert(Self::valid_delta(w, h, t, total, brush_milli, prop, d) && pair == spec_mutate(
                w,
                h,
                *cmd,
                prop,
                d,
            ));
        }
        pair
    }

    /// Generate a random command for a `w` by `h` target: a uniform center,
    /// the color read from the target pixel under it with the given alpha,
    /// radii drawn from the annealed schedule, and a uniform angle in
    /// `[-90, 90]` degrees.
    pub fn rand(
        w: u32,
        h: u32,
        t: u32,
        total: u32,
        img: &Vec<u8>,
        rng: &mut rand::rngs::ThreadRng,
        alpha: u8,
        brush_milli: u32,
    ) -> (cmd: DrawCommand)
        requires
            1 <= w <= MAX_DIMENSION,
            1 <= h <= MAX_DIMENSION,
            1 <= total,
            t <= total,
            brush_milli <= MAX_BRUSH_MILLI,
            img.len() == 4 * w * h,
        ensures
            cmd.wf(w, h),
            -90 <= cmd.angle <= 90,
            cmd.color.a == alpha,
            cmd.color.r == img[4 * (cmd.x + w * cmd.y)],
            cmd.color.g == img[4 * (cmd.x + w * cmd.y) + 1],
            cmd.color.b == img[4 * (cmd.x + w * cmd.y) + 2],
            ({
                let rmax = spec_brush_size(t as int, total as int, brush_milli as int, w - 1);
                1 + rmax / 16 <= cmd.rx <= rmax
            }),
            ({
                let rmax = spec_brush_size(t as int, total as int, brush_milli as int, h - 1);
                1 + rmax / 16 <= cmd.ry <= rmax
            }),
    {
        let x = rnd_u32(rng, 0, w - 1);
        let y = rnd_u32(rng, 0, h - 1);
        proof {
            assert(w * y <= w * h && x + w * y < w * h && 4 * (x + w * y) + 3 < 4 * w * h)
                by (nonlinear_arith)
                requires
                    x <= w - 1,
                    y <= h - 1,
                    1 <= w,
                    1 <= h,
            ;
            assert(4 * (x + w * y) + 3 < img.len());
        }
        let index = 4 * ((x as usize) + (w as usize) * (y as usize));
        let r = img[index];
        let g = img[index + 1];
        let b = img[index + 2];

        let rx_max = brush_size(t, total, brush_milli, w - 1);
        let ry_max = brush_size(t, total, brush_milli, h - 1);
        let rx_min = 1 + rx_max / 16;
        let ry_min = 1 + ry_max / 16;
        let rx = rnd_u32(rng, rx_min, rx_max);
        let ry = rnd_u32(rng, ry_min, ry_max);
        let angle = rnd_i32(rng, -90, 90);
        let color = Rgba { r, g, b, a: alpha };
        DrawCommand { x, y, rx, ry, angle, color }
    }
}

/// Mutation symmetry away from domain boundaries: when the perturbed
/// property stays inside its domain in both directions, the sibling pair
/// carries exactly `+d` and `-d` on that property and every other property
/// of both siblings, the alpha channel included, is unchanged.
pub proof fn lemma_mutate_symmetry(w: u32, h: u32, cmd: DrawCommand, prop: u8, d: u32)
    requires
        1 <= w,
        1 <= h,
        prop <= 7,
        1 <= d,
        cmd.wf(w, h),
        prop == 0 ==> d <= cmd.x && cmd.x + d <= w - 1,
        prop == 1 ==> d <= cmd.y && cmd.y + d <= h - 1,
        prop == 2 ==> 1 + d <= cmd.rx && cmd.rx + d <= (w - 1) / 2,
        prop == 3 ==> 1 + d <= cmd.ry && cmd.ry + d <= (h - 1) / 2,
        prop == 4 ==> d <= cmd.angle && cmd.angle + d <= 180,
        prop == 5 ==> d <= cmd.color.r && cmd.color.r + d <= 255,
        prop == 6 ==> d <= cmd.color.g && cmd.color.g + d <= 255,
        prop == 7 ==> d <= cmd.color.b && cmd.color.b + d <= 255,
    ensures
        ({
            let (c1, c2) = spec_mutate(w, h, cmd, prop, d);
            &&& prop_value(c1, prop) == prop_value(cmd, prop) + d
            &&& prop_value(c2, prop) == prop_value(cmd, prop) - d
            &&& forall|p: u8|
                p <= 7 && p != prop ==> prop_value(c1, p) == prop_value(cmd, p) && prop_value(
                    c2,
                    p,
                ) == prop_value(cmd, p)
            &&& c1.color.a == cmd.color.a
            &&& c2.color.a == cmd.color.a
        }),
{
}

/// When clamping collapses both siblings' perturbed property back to its
/// unperturbed value, the pair degenerates: both siblings equal the input
/// command.
pub proof fn lemma_mutate_collapse(w: u32, h: u32, cmd: DrawCommand, prop: u8, d: u32)
    requires
        1 <= w,
        1 <= h,
        prop <= 7,
        ({
            let (c1, c2) = spec_mutate(w, h, cmd, prop, d);
            prop_value(c1, prop) == prop_value(cmd, prop) && prop_value(c2, prop) == prop_value(
                cmd,
                prop,
            )
        }),
    ensures
        spec_mutate(w, h, cmd, prop, d).0 == cmd,
        spec_mutate(w, h, cmd, prop, d).1 == cmd,
{
}

} // verus!
