use ellipse_fit::canvas::Canvas;
use ellipse_fit::color_converter::ColorConverter;
use ellipse_fit::draw_command::Rgba;
use ellipse_fit::dssim::{diff, fix_of_bits};
use lab::Lab;

#[test]
fn fix_of_bits_decodes_exact_values() {
    assert_eq!(fix_of_bits(0.0f32.to_bits()), 0);
    assert_eq!(fix_of_bits((-0.0f32).to_bits()), 0);
    assert_eq!(fix_of_bits(1.0f32.to_bits()), 5120);
    assert_eq!(fix_of_bits((-1.5f32).to_bits()), -7680);
    assert_eq!(fix_of_bits(0.25f32.to_bits()), 1280);
    assert_eq!(fix_of_bits(100.0f32.to_bits()), 512000);
    assert_eq!(fix_of_bits((-86.5f32).to_bits()), -442880);
    // Beyond the Lab gamut the decode saturates.
    assert_eq!(fix_of_bits(1.0e20f32.to_bits()), 655360);
    assert_eq!(fix_of_bits((-1.0e20f32).to_bits()), -655360);
    // Truncation is toward zero.
    assert_eq!(fix_of_bits(0.0001f32.to_bits()), 0);
    assert_eq!(fix_of_bits((-0.0001f32).to_bits()), 0);
}

#[test]
fn dssim_test() {
    const WIDTH: u32 = 32;
    const HEIGHT: u32 = 32;

    let canvas = Canvas::filled(WIDTH, HEIGHT, Rgba { r: 0, g: 0, b: 0, a: 255 });
    let img_raw = vec![0_u8; (WIDTH * HEIGHT * 4) as usize];

    let color_converter = ColorConverter::new();
    let lab_img = color_converter.lab_image(WIDTH, HEIGHT, &img_raw);

    let res = diff(&color_converter, &lab_img, &canvas, 100);

    assert_eq!(res, 0);
}

#[test]
fn self_difference_is_zero_for_every_blend() {
    let w: u32 = 32;
    let h: u32 = 32;
    let mut bytes = vec![0u8; (4 * w * h) as usize];
    for i in 0..(w * h) as usize {
        bytes[4 * i] = (i * 7 % 256) as u8;
        bytes[4 * i + 1] = (i * 13 % 256) as u8;
        bytes[4 * i + 2] = (i * 29 % 256) as u8;
        bytes[4 * i + 3] = 255;
    }
    let conv = ColorConverter::new();
    let lab_img = conv.lab_image(w, h, &bytes);
    let canvas = Canvas::from_rgba_bytes(w, h, bytes).unwrap();
    // Pure mean-squared-error blend, pure structural blend, and a mixture.
    assert_eq!(diff(&conv, &lab_img, &canvas, 1000), 0);
    assert_eq!(diff(&conv, &lab_img, &canvas, 0), 0);
    assert_eq!(diff(&conv, &lab_img, &canvas, 500), 0);
}

#[test]
fn mse_only_score_matches_the_formula() {
    // A 2x2 image has no whole 8x8 block, so the structural term is zero
    // and the score is the blend-weighted mean squared error alone.
    let w: u32 = 2;
    let h: u32 = 2;
    let img_raw = vec![0u8; 16];
    let conv = ColorConverter::new();
    let lab_img = conv.lab_image(w, h, &img_raw);
    let canvas = Canvas::filled(w, h, Rgba { r: 255, g: 255, b: 255, a: 255 });

    let black = Lab::from_rgb(&[0, 0, 0]);
    let white = Lab::from_rgb(&[255, 255, 255]);
    let f = |v: f32| fix_of_bits(v.to_bits()) as i128;
    let d0 = f(black.l) - f(white.l);
    let d1 = f(black.a) - f(white.a);
    let d2 = f(black.b) - f(white.b);
    let msum = 4 * (d0 * d0 + d1 * d1 + d2 * d2);
    let mse_q = (msum * 4_294_967_296) / (786_432_000_000i128 * 4);

    let full = diff(&conv, &lab_img, &canvas, 1000);
    assert_eq!(full as i128, mse_q);
    let half = diff(&conv, &lab_img, &canvas, 500);
    assert_eq!(half as i128, (500 * mse_q) / 1000);
    // Ratios above one thousand clamp to one thousand.
    let clamped = diff(&conv, &lab_img, &canvas, 5000);
    assert_eq!(clamped, full);
}

#[test]
fn structural_mismatch_scores_positive() {
    let w: u32 = 8;
    let h: u32 = 8;
    let img_raw = vec![0u8; (4 * w * h) as usize];
    let conv = ColorConverter::new();
    let lab_img = conv.lab_image(w, h, &img_raw);
    let canvas = Canvas::filled(w, h, Rgba { r: 255, g: 255, b: 255, a: 255 });
    // Pure structural blend on one whole block of mismatched pixels.
    let score = diff(&conv, &lab_img, &canvas, 0);
    assert!(score > 0);
}
