use ellipse_fit::draw_command::{brush_size, clamp, mod_angle, DrawCommand, Rgba};

#[test]
fn new_is_zeroed_black() {
    let cmd = DrawCommand::new();
    assert_eq!(cmd.x, 0);
    assert_eq!(cmd.y, 0);
    assert_eq!(cmd.rx, 0);
    assert_eq!(cmd.ry, 0);
    assert_eq!(cmd.angle, 0);
    assert_eq!(cmd.color, Rgba { r: 0, g: 0, b: 0, a: 255 });
}

#[test]
fn clamp_orders_bounds() {
    assert_eq!(clamp(5, 0, 10), 5);
    assert_eq!(clamp(-3, 0, 10), 0);
    assert_eq!(clamp(42, 0, 10), 10);
    // An empty domain: the lower test is made first.
    assert_eq!(clamp(0, 1, 0), 1);
    assert_eq!(clamp(5, 1, 0), 0);
}

#[test]
fn mod_angle_wraps_asymmetrically() {
    assert_eq!(mod_angle(-5), 175);
    assert_eq!(mod_angle(0), 0);
    assert_eq!(mod_angle(90), 90);
    assert_eq!(mod_angle(180), 180);
    assert_eq!(mod_angle(184), 4);
    // The subtraction tests the input, not the lifted value.
    assert_eq!(mod_angle(-200), -20);
}

#[test]
fn brush_size_formula_value() {
    // 1 + floor(750^2 * 100^2 * 99 / (2_000_000 * 100^2)) = 1 + 27.
    assert_eq!(brush_size(0, 100, 750, 99), 28);
    // At the end of the run the radius bound reaches its minimum of one.
    assert_eq!(brush_size(100, 100, 750, 99), 1);
}

#[test]
fn brush_size_anneals_monotonically() {
    let mut prev = u32::MAX;
    for t in 0..=200 {
        let size = brush_size(t, 200, 750, 4095);
        assert!(size <= prev);
        prev = size;
    }
    assert_eq!(prev, 1);
}

#[test]
fn mutate_with_is_symmetric_in_the_interior() {
    let cmd = DrawCommand {
        x: 50,
        y: 40,
        rx: 10,
        ry: 12,
        angle: 30,
        color: Rgba { r: 100, g: 120, b: 140, a: 128 },
    };
    let cases: [(u8, u32); 8] = [
        (0, 3),
        (1, 3),
        (2, 4),
        (3, 4),
        (4, 2),
        (5, 7),
        (6, 7),
        (7, 7),
    ];
    for (prop, d) in cases {
        let (c1, c2) = DrawCommand::mutate_with(200, 200, &cmd, prop, d);
        let fields = |c: &DrawCommand| {
            [
                c.x as i64,
                c.y as i64,
                c.rx as i64,
                c.ry as i64,
                c.angle as i64,
                c.color.r as i64,
                c.color.g as i64,
                c.color.b as i64,
            ]
        };
        let base = fields(&cmd);
        let up = fields(&c1);
        let down = fields(&c2);
        for p in 0..8 {
            if p == prop as usize {
                assert_eq!(up[p], base[p] + d as i64);
                assert_eq!(down[p], base[p] - d as i64);
            } else {
                assert_eq!(up[p], base[p]);
                assert_eq!(down[p], base[p]);
            }
        }
        assert_eq!(c1.color.a, cmd.color.a);
        assert_eq!(c2.color.a, cmd.color.a);
    }
}

#[test]
fn mutate_with_collapses_to_the_input_on_a_point_domain() {
    // A one-pixel-wide image leaves no room: both siblings clamp back.
    let cmd = DrawCommand {
        x: 0,
        y: 0,
        rx: 1,
        ry: 1,
        angle: 0,
        color: Rgba { r: 1, g: 2, b: 3, a: 255 },
    };
    let (c1, c2) = DrawCommand::mutate_with(1, 5, &cmd, 0, 2);
    assert_eq!(c1, cmd);
    assert_eq!(c2, cmd);
}

#[test]
fn rand_draws_within_domains() {
    let w: u32 = 20;
    let h: u32 = 10;
    let mut img = vec![0u8; (4 * w * h) as usize];
    for i in 0..(w * h) as usize {
        img[4 * i] = (i % 251) as u8;
        img[4 * i + 1] = (i % 241) as u8;
        img[4 * i + 2] = (i % 239) as u8;
        img[4 * i + 3] = 255;
    }
    let mut rng = rand::thread_rng();
    for t in 0..50 {
        let cmd = DrawCommand::rand(w, h, t, 50, &img, &mut rng, 77, 750);
        assert!(cmd.x < w);
        assert!(cmd.y < h);
        assert!(cmd.rx >= 1);
        assert!(cmd.ry >= 1);
        assert!((-90..=90).contains(&cmd.angle));
        assert_eq!(cmd.color.a, 77);
        let base = 4 * (cmd.x + w * cmd.y) as usize;
        assert_eq!(cmd.color.r, img[base]);
        assert_eq!(cmd.color.g, img[base + 1]);
        assert_eq!(cmd.color.b, img[base + 2]);
    }
}

#[test]
fn mutate_keeps_commands_well_formed() {
    let w: u32 = 30;
    let h: u32 = 20;
    let mut rng = rand::thread_rng();
    let mut cmd = DrawCommand {
        x: 10,
        y: 10,
        rx: 5,
        ry: 5,
        angle: 45,
        color: Rgba { r: 10, g: 20, b: 30, a: 200 },
    };
    for t in 0..100 {
        let (c1, c2) = DrawCommand::mutate(w, h, t, 100, &cmd, &mut rng, 750);
        for c in [&c1, &c2] {
            assert!(c.x < w);
            assert!(c.y < h);
            assert!((-90..=180).contains(&c.angle));
            assert_eq!(c.color.a, cmd.color.a);
        }
        cmd = c1;
    }
}
