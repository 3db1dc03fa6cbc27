use ellipse_fit::color_converter::ColorConverter;
use lab::Lab;

#[test]
fn table_round_trip() {
    let conv = ColorConverter::new();
    let mut samples: Vec<(u8, u8, u8)> = Vec::new();
    for &r in &[0u8, 255] {
        for &g in &[0u8, 255] {
            for &b in &[0u8, 255] {
                samples.push((r, g, b));
            }
        }
    }
    // A fixed pseudo-random sample of interior values.
    let mut x: u32 = 123456789;
    for _ in 0..64 {
        x = x.wrapping_mul(1664525).wrapping_add(1013904223);
        samples.push(((x >> 24) as u8, (x >> 16) as u8, (x >> 8) as u8));
    }
    for (r, g, b) in samples {
        let got = conv.get_lab(r, g, b);
        let direct = Lab::from_rgb(&[r, g, b]);
        assert_eq!(got.l, direct.l.to_bits());
        assert_eq!(got.a, direct.a.to_bits());
        assert_eq!(got.b, direct.b.to_bits());
    }
}

#[test]
fn lab_image_projects_pixel_by_pixel() {
    let conv = ColorConverter::new();
    let w: u32 = 3;
    let h: u32 = 2;
    let mut img = vec![0u8; (4 * w * h) as usize];
    let colors = [
        [255u8, 0, 0],
        [0u8, 255, 0],
        [0u8, 0, 255],
        [10u8, 20, 30],
        [200u8, 150, 100],
        [255u8, 255, 255],
    ];
    for (i, c) in colors.iter().enumerate() {
        img[4 * i] = c[0];
        img[4 * i + 1] = c[1];
        img[4 * i + 2] = c[2];
        // The projection must ignore the source alpha.
        img[4 * i + 3] = (17 * i) as u8;
    }
    let lab_img = conv.lab_image(w, h, &img);
    assert_eq!(lab_img.len(), (w * h) as usize);
    for (i, c) in colors.iter().enumerate() {
        let expect = conv.get_lab(c[0], c[1], c[2]);
        assert_eq!(lab_img[i], expect);
    }
}
