use bytebeat::compile::compile;
use bytebeat::cmd::Cmd;
use bytebeat::encode::Color;
use bytebeat::eval::FloatOp;
use bytebeat::video::{frame_window, render_audio, render_frame, video_plan, BG_HEIGHT, FPS, HEIGHT, WIDTH, WV_HEIGHT};

fn float_unit(op: FloatOp) -> u64 {
    let f = f64::from_bits;
    let truth = |b: bool| if b { 1 } else { 0 };
    match op {
        FloatOp::Truncate(b) => (f(b) as i64) as u64,
        FloatOp::Widen(x) => (x as f64).to_bits(),
        FloatOp::Sin(b) => f(b).sin().to_bits(),
        FloatOp::Cos(b) => f(b).cos().to_bits(),
        FloatOp::Tan(b) => f(b).tan().to_bits(),
        FloatOp::Pow(a, b) => f(a).powf(f(b)).to_bits(),
        FloatOp::Add(a, b) => (f(a) + f(b)).to_bits(),
        FloatOp::Sub(a, b) => (f(a) - f(b)).to_bits(),
        FloatOp::Mul(a, b) => (f(a) * f(b)).to_bits(),
        FloatOp::Div(a, b) => (f(a) / f(b)).to_bits(),
        FloatOp::Rem(a, b) => (f(a) % f(b)).to_bits(),
        FloatOp::Less(a, b) => truth(f(a) < f(b)),
        FloatOp::Greater(a, b) => truth(f(a) > f(b)),
        FloatOp::LessEq(a, b) => truth(f(a) <= f(b)),
        FloatOp::GreaterEq(a, b) => truth(f(a) >= f(b)),
        FloatOp::Equal(a, b) => truth(f(a) == f(b)),
    }
}

fn scale(c: Color, x: u8) -> Color {
    let k = x as u16;
    Color([
        ((c.0[0] as u16 * k) >> 8) as u8,
        ((c.0[1] as u16 * k) >> 8) as u8,
        ((c.0[2] as u16 * k) >> 8) as u8,
    ])
}

/// The frame drawn step by step: background, cleared strip, waveform, cursor.
fn reference_frame(
    image: &mut [Color],
    data: &[u8],
    bg_offset: usize,
    cursor_col: usize,
    bg_color: Color,
    wave_color: Color,
    scan_color: Color,
) {
    for row in 0..BG_HEIGHT {
        for col in 0..WIDTH {
            let i = row + col * BG_HEIGHT;
            image[row * WIDTH + col] = scale(bg_color, data[i + bg_offset * BG_HEIGHT]);
        }
    }
    for row in BG_HEIGHT..HEIGHT {
        for col in 0..WIDTH {
            image[row * WIDTH + col] = Color([0, 0, 0]);
        }
    }
    let waveform_col = bg_offset + cursor_col;
    for sample in 0..BG_HEIGHT - 1 {
        let x0 = data[waveform_col * BG_HEIGHT + sample] as usize * WV_HEIGHT / 256;
        let x1 = data[waveform_col * BG_HEIGHT + sample + 1] as usize * WV_HEIGHT / 256;
        let mid = (x0 + x1) / 2;
        let col = sample * WIDTH / BG_HEIGHT;
        for r in x0.min(mid)..x0.max(mid) + 1 {
            let row = HEIGHT - r - 1;
            image[row * WIDTH + col] = wave_color;
            image[row * WIDTH + col + 1] = wave_color;
        }
        for r in x1.min(mid)..x1.max(mid) + 1 {
            let row = HEIGHT - r - 1;
            image[row * WIDTH + col + 1] = wave_color;
            image[row * WIDTH + col + 2] = wave_color;
        }
    }
    for row in 0..BG_HEIGHT {
        image[row * WIDTH + cursor_col] = scan_color;
    }
}

fn sample_data(columns: usize) -> Vec<u8> {
    (0..columns * BG_HEIGHT).map(|i| ((i * 37) ^ (i >> 5)) as u8).collect()
}

#[test]
fn render_frame_matches_reference() {
    let data = sample_data(700);
    let bg = Color([255, 100, 16]);
    let fg = Color([64, 128, 255]);
    let scan = Color([255, 255, 255]);
    for &(offset, cursor) in &[(0usize, 0usize), (3, 17), (60, 639), (10, 320)] {
        let mut got = vec![Color([1, 1, 1]); WIDTH * HEIGHT];
        let mut want = vec![Color([1, 1, 1]); WIDTH * HEIGHT];
        render_frame(&mut got, &data, offset, cursor, bg, fg, scan);
        reference_frame(&mut want, &data, offset, cursor, bg, fg, scan);
        assert!(got == want, "offset {} cursor {}", offset, cursor);
    }
}

#[test]
fn render_frame_spot_values() {
    let mut data = vec![0u8; 640 * BG_HEIGHT];
    data[10 + 3 * BG_HEIGHT] = 128;
    let mut image = vec![Color([9, 9, 9]); WIDTH * HEIGHT];
    render_frame(&mut image, &data, 0, 5, Color([200, 100, 50]), Color([1, 2, 3]), Color([7, 7, 7]));
    assert_eq!(image[10 * WIDTH + 3], Color([100, 50, 25]));
    assert_eq!(image[11 * WIDTH + 3], Color([0, 0, 0]));
    assert_eq!(image[100 * WIDTH + 5], Color([7, 7, 7]));
    // A flat zero waveform draws the bottom row.
    assert_eq!(image[(HEIGHT - 1) * WIDTH + 0], Color([1, 2, 3]));
    assert_eq!(image[(HEIGHT - 2) * WIDTH + 0], Color([0, 0, 0]));
}

#[test]
fn video_plan_for_8khz() {
    let (frames, size, width) = video_plan(8000);
    assert_eq!(frames, FPS * 30);
    assert_eq!(size, 240_000);
    assert_eq!(width, 937);
}

#[test]
fn frame_window_scrolls_and_stops() {
    let (frames, _, width) = video_plan(8000);
    assert_eq!(frame_window(0, frames, width), (0, 0));
    // x = 200 * 937 / 450 = 416: the view starts 320 columns earlier.
    assert_eq!(frame_window(200, frames, width), (96, 320));
    // Near the end the view stops at the last 640 columns.
    assert_eq!(frame_window(449, frames, width), (297, 637));
}

#[test]
fn render_audio_evaluates_at_doubles() {
    let p = compile(vec![Cmd::Var, Cmd::NumI(3), Cmd::Mul]).unwrap();
    let data = render_audio(&p, 100, &float_unit);
    assert_eq!(data.len(), 100);
    for (i, x) in data.iter().enumerate() {
        assert_eq!(*x, ((i as i64) * 3) as u8);
    }
    let s = compile(vec![Cmd::Var, Cmd::Sin, Cmd::NumF(100.0f64.to_bits()), Cmd::MulF]).unwrap();
    let wave = render_audio(&s, 4, &float_unit);
    assert_eq!(wave, vec![0, 84, 90, 14]);
}
