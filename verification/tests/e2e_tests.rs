use ellipse_fit::canvas::{avg_color, Canvas};
use ellipse_fit::color_converter::ColorConverter;
use ellipse_fit::draw_command::{DrawCommand, Rgba};
use ellipse_fit::dssim::diff;
use ellipse_fit::engine::{select_best, SearchState};
use tiny_skia::{Color, FillRule, Paint, PathBuilder, Pixmap, Transform};

fn render_command(pixmap: &mut Pixmap, cmd: &DrawCommand) {
    if cmd.rx == 0 || cmd.ry == 0 {
        return;
    }
    let path = PathBuilder::from_circle(0.0, 0.0, 1.0).unwrap();
    let mut paint = Paint::default();
    paint.set_color_rgba8(cmd.color.r, cmd.color.g, cmd.color.b, cmd.color.a);
    paint.anti_alias = true;
    let transform = Transform::from_scale(cmd.rx as f32, cmd.ry as f32)
        .post_rotate(cmd.angle as f32)
        .post_translate(cmd.x as f32, cmd.y as f32);
    pixmap.fill_path(&path, &paint, FillRule::Winding, transform, None);
}

fn canvas_of(w: u32, h: u32, pixmap: &Pixmap) -> Canvas {
    Canvas::from_rgba_bytes(w, h, pixmap.data().to_vec()).expect("opaque canvas")
}

#[test]
fn avg_color_is_the_channel_mean() {
    let w: u32 = 2;
    let h: u32 = 1;
    let img = vec![10u8, 20, 30, 255, 11, 21, 31, 255];
    let c = avg_color(w, h, &img);
    assert_eq!(c, Rgba { r: 10, g: 20, b: 30, a: 255 });
    let empty: Vec<u8> = Vec::new();
    assert_eq!(avg_color(0, 0, &empty), Rgba { r: 0, g: 0, b: 0, a: 255 });
}

#[test]
fn end_to_end_two_by_two_target() {
    let w: u32 = 2;
    let h: u32 = 2;
    let c1 = [220u8, 30, 40];
    let c2 = [20u8, 200, 230];
    let mut img = vec![0u8; 16];
    for (i, c) in [c1, c2, c2, c1].iter().enumerate() {
        img[4 * i] = c[0];
        img[4 * i + 1] = c[1];
        img[4 * i + 2] = c[2];
        img[4 * i + 3] = 255;
    }
    let conv = ColorConverter::new();
    let lab_img = conv.lab_image(w, h, &img);
    let bg = avg_color(w, h, &img);
    let mse_milli: u32 = 500;
    let num: u32 = 50;
    let seed_count = 4;
    let optimize_count = 8;
    let alpha = 128u8;
    let brush_milli = 750u32;

    let mut pixmap = Pixmap::new(w, h).unwrap();
    pixmap.fill(Color::from_rgba8(bg.r, bg.g, bg.b, 255));
    let initial_score = diff(&conv, &lab_img, &canvas_of(w, h, &pixmap), mse_milli);
    let mut state = SearchState::init(bg, initial_score);

    let mut rng = rand::thread_rng();
    for t in 0..num {
        let mut results: Vec<(i64, DrawCommand)> = Vec::new();
        for _ in 0..seed_count {
            let mut best_cmd = DrawCommand::rand(w, h, t, num, &img, &mut rng, alpha, brush_milli);
            let mut best_score = {
                let mut tmp = pixmap.clone();
                render_command(&mut tmp, &best_cmd);
                diff(&conv, &lab_img, &canvas_of(w, h, &tmp), mse_milli)
            };
            for _ in 0..optimize_count {
                let (cmd, cmd2) = DrawCommand::mutate(w, h, t, num, &best_cmd, &mut rng, brush_milli);
                let score = if cmd == best_cmd {
                    best_score
                } else {
                    let mut tmp = pixmap.clone();
                    render_command(&mut tmp, &cmd);
                    diff(&conv, &lab_img, &canvas_of(w, h, &tmp), mse_milli)
                };
                if score < best_score {
                    best_score = score;
                    best_cmd = cmd;
                } else if cmd != cmd2 {
                    let score2 = if cmd2 == best_cmd {
                        best_score
                    } else {
                        let mut tmp = pixmap.clone();
                        render_command(&mut tmp, &cmd2);
                        diff(&conv, &lab_img, &canvas_of(w, h, &tmp), mse_milli)
                    };
                    if score2 < best_score {
                        best_score = score2;
                        best_cmd = cmd2;
                    }
                }
            }
            results.push((best_score, best_cmd));
        }
        let (best_score, best_cmd) = select_best(&results);
        let previous_best = state.best_score;
        if state.commit_if_better(best_score, best_cmd) {
            render_command(&mut pixmap, &best_cmd);
        }
        assert!(state.best_score <= previous_best);
    }

    let final_score = diff(&conv, &lab_img, &canvas_of(w, h, &pixmap), mse_milli);
    assert!(final_score <= initial_score);
    assert_eq!(final_score, state.best_score);
    assert!(state.commands.len() <= 50);

    // Re-rendering the command log onto a fresh background canvas must
    // reproduce the exact final pixel buffer.
    let mut replay = Pixmap::new(w, h).unwrap();
    replay.fill(Color::from_rgba8(state.bg.r, state.bg.g, state.bg.b, 255));
    for cmd in &state.commands {
        render_command(&mut replay, cmd);
    }
    assert_eq!(replay.data(), pixmap.data());
}
