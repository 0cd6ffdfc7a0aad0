use vstd::prelude::*;

use crate::cmd::Cmd;
use crate::color::{scaled, Color};
use crate::compile::Program;
use crate::eval::{answers, as_bits, bits_of, eval_program, int_of, result_of, total, FloatOp, Val};

verus! {

/// Width of a video frame in pixels.
pub const WIDTH: usize = 640;

/// Height of a video frame in pixels.
pub const HEIGHT: usize = 360;

/// Height of the scrolling background: one column of it shows 256 samples.
pub const BG_HEIGHT: usize = 256;

/// Height of the waveform strip below the background.
pub const WV_HEIGHT: usize = 104;

/// Frames per second of the video.
pub const FPS: usize = 15;

/// How far up the waveform strip a sample reaches.
pub open spec fn wave_height(d: u8) -> int {
    d as int * 104 / 256
}

/// The background pixel at index `p` (`p < 256 * 640`): the sample shown
/// there, as a brightness of `color`. Column `c` of the background shows the
/// 256 samples of column `bg_offset + c` of the audio.
pub open spec fn background_pixel(data: Seq<u8>, bg_offset: int, color: Color, p: int) -> Color {
    scaled(color, data[(p / 640) + (p % 640) * 256 + bg_offset * 256])
}

/// Pixel `p` lies on the two line segments that sample `s` of the waveform
/// (read from `data[base + s]` and `data[base + s + 1]`) draws.
pub open spec fn sample_hits(data: Seq<u8>, base: int, s: int, p: int) -> bool {
    let x0 = wave_height(data[base + s]);
    let x1 = wave_height(data[base + s + 1]);
    let mid = (x0 + x1) / 2;
    let col = s * 640 / 256;
    let c = p % 640;
    let r = 359 - p / 640;
    &&& 256 * 640 <= p < 360 * 640
    &&& {
        ||| (c == col || c == col + 1) && (if x0 <= mid {
            x0 <= r <= mid
        } else {
            mid <= r <= x0
        })
        ||| (c == col + 1 || c == col + 2) && (if x1 <= mid {
            x1 <= r <= mid
        } else {
            mid <= r <= x1
        })
    }
}

/// Pixel `p` lies on the waveform of the first `k` samples.
pub open spec fn painted(data: Seq<u8>, base: int, k: int, p: int) -> bool
    decreases k,
{
    if k <= 0 {
        false
    } else {
        painted(data, base, k - 1, p) || sample_hits(data, base, k - 1, p)
    }
}

/// Pixel `p` lies on the cursor: one pixel per background row, at
/// `row * 640 + cursor_col`.
pub open spec fn is_cursor(cursor_col: int, p: int) -> bool {
    p >= cursor_col && (p - cursor_col) % 640 == 0 && (p - cursor_col) / 640 < 256
}

/// The pixel at index `p` of a rendered frame.
pub open spec fn frame_pixel(
    data: Seq<u8>,
    bg_offset: int,
    cursor_col: int,
    bg_color: Color,
    wave_color: Color,
    scan_color: Color,
    p: int,
) -> Color {
    if is_cursor(cursor_col, p) {
        scan_color
    } else if p < 256 * 640 {
        background_pixel(data, bg_offset, bg_color, p)
    } else if painted(data, (bg_offset + cursor_col) * 256, 255, p) {
        wave_color
    } else {
        Color([0, 0, 0])
    }
}

proof fn lemma_row_col(row: int, c: int)
    requires
        row >= 0,
        0 <= c < 640,
    ensures
        (row * 640 + c) / 640 == row,
        (row * 640 + c) % 640 == c,
{
    vstd::arithmetic::div_mod::lemma_fundamental_div_mod_converse(row * 640 + c, 640, row, c);
}

} // verus!

verus! {

fn draw_background(image: &mut [Color], data: &[u8], bg_offset: usize, bg_color: Color)
    requires
        old(image)@.len() >= 360 * 640,
        (bg_offset + 640) * 256 <= data@.len(),
    ensures
        final(image)@.len() == old(image)@.len(),
        forall|p: int|
            0 <= p < 256 * 640 ==> final(image)@[p] == background_pixel(
                data@,
                bg_offset as int,
                bg_color,
                p,
            ),
        forall|p: int| 256 * 640 <= p < final(image)@.len() ==> final(image)@[p] == old(image)@[p],
{
    let ghost orig = image@;
    let _ = data.len();
    assert(bg_offset * 256 + 640 * 256 <= data@.len()) by (nonlinear_arith)
        requires
            (bg_offset + 640) * 256 <= data@.len(),
    ;
    for row in 0..BG_HEIGHT
        invariant
            image@.len() == orig.len(),
            orig.len() >= 360 * 640,
            bg_offset * 256 + 640 * 256 <= data@.len(),
            data@.len() <= usize::MAX,
            forall|p: int|
                0 <= p < row * 640 ==> image@[p] == background_pixel(
                    data@,
                    bg_offset as int,
                    bg_color,
                    p,
                ),
            forall|p: int| row * 640 <= p < image@.len() ==> image@[p] == orig[p],
    {
        for col in 0..WIDTH
            invariant
                0 <= row < 256,
                image@.len() == orig.len(),
                orig.len() >= 360 * 640,
                bg_offset * 256 + 640 * 256 <= data@.len(),
                data@.len() <= usize::MAX,
            data@.len() <= usize::MAX,
                forall|p: int|
                    0 <= p < row * 640 + col ==> image@[p] == background_pixel(
                        data@,
                        bg_offset as int,
                        bg_color,
                        p,
                    ),
                forall|p: int| row * 640 + col <= p < image@.len() ==> image@[p] == orig[p],
        {
            assert(col * 256 <= 639 * 256) by (nonlinear_arith)
                requires
                    col < 640,
            ;
            assert(row * 640 + col < 256 * 640) by (nonlinear_arith)
                requires
                    row < 256,
                    col < 640,
            ;
            let i = row + col * BG_HEIGHT;
            let x = data[i + bg_offset * BG_HEIGHT];
            proof {
                lemma_row_col(row as int, col as int);
            }
            image[row * WIDTH + col] = bg_color * x;
        }
    }
}

fn clear_strip(image: &mut [Color])
    requires
        old(image)@.len() >= 360 * 640,
    ensures
        final(image)@.len() == old(image)@.len(),
        forall|p: int| 256 * 640 <= p < 360 * 640 ==> final(image)@[p] == Color([0, 0, 0]),
        forall|p: int|
            0 <= p < final(image)@.len() && !(256 * 640 <= p < 360 * 640) ==> final(image)@[p]
                == old(image)@[p],
{
    let ghost orig = image@;
    for row in BG_HEIGHT..HEIGHT
        invariant
            256 <= row <= 360,
            image@.len() == orig.len(),
            orig.len() >= 360 * 640,
            forall|p: int| 256 * 640 <= p < row * 640 ==> image@[p] == Color([0, 0, 0]),
            forall|p: int|
                0 <= p < image@.len() && !(256 * 640 <= p < row * 640) ==> image@[p] == orig[p],
    {
        for col in 0..WIDTH
            invariant
                256 <= row < 360,
                image@.len() == orig.len(),
                orig.len() >= 360 * 640,
                forall|p: int| 256 * 640 <= p < row * 640 + col ==> image@[p] == Color([0, 0, 0]),
                forall|p: int|
                    0 <= p < image@.len() && !(256 * 640 <= p < row * 640 + col) ==> image@[p]
                        == orig[p],
        {
            image[row * WIDTH + col] = Color([0, 0, 0]);
        }
    }
}

fn draw_cursor(image: &mut [Color], cursor_col: usize, scan_color: Color)
    requires
        255 * 640 + cursor_col < old(image)@.len(),
    ensures
        final(image)@.len() == old(image)@.len(),
        forall|p: int|
            0 <= p < final(image)@.len() ==> final(image)@[p] == if is_cursor(cursor_col as int, p) {
                scan_color
            } else {
                old(image)@[p]
            },
{
    let ghost orig = image@;
    let _ = image.len();
    for row in 0..BG_HEIGHT
        invariant
            255 * 640 + cursor_col < orig.len(),
            orig.len() <= usize::MAX,
            image@.len() == orig.len(),
            forall|p: int|
                0 <= p < image@.len() ==> image@[p] == if p >= cursor_col && (p - cursor_col) % 640
                    == 0 && (p - cursor_col) / 640 < row {
                    scan_color
                } else {
                    orig[p]
                },
    {
        assert(row * 640 <= 255 * 640) by (nonlinear_arith)
            requires
                row < 256,
        ;
        if cursor_col > 0 {
            image[row * WIDTH + cursor_col] = scan_color;
        }
        image[row * WIDTH + cursor_col] = scan_color;
        proof {
            let q = row * 640 + cursor_col;
            lemma_row_col(row as int, 0);
            assert forall|p: int| 0 <= p < image@.len() implies image@[p] == if p >= cursor_col && (p
                - cursor_col) % 640 == 0 && (p - cursor_col) / 640 < row + 1 {
                scan_color
            } else {
                orig[p]
            } by {
                if p >= cursor_col && (p - cursor_col) % 640 == 0 {
                    let k = (p - cursor_col) / 640;
                    vstd::arithmetic::div_mod::lemma_fundamental_div_mod(p - cursor_col, 640);
                    if k == row {
                        assert(p == q);
                    } else {
                        assert(p != q);
                    }
                } else {
                    if p == q {
                        lemma_row_col(row as int, 0);
                        assert(p - cursor_col == row * 640);
                    }
                }
            }
        }
    }
}

} // verus!

verus! {

/// Pixel `p` lies in columns `col` and `col + 1` of the waveform strip, on a
/// row whose height `359 - p / 640` is within `lo..=hi`.
pub open spec fn on_segment(lo: int, hi: int, col: int, p: int) -> bool {
    &&& 256 * 640 <= p < 360 * 640
    &&& (p % 640 == col || p % 640 == col + 1)
    &&& lo <= 359 - p / 640 <= hi
}

proof fn lemma_wave_height_bound(d: u8)
    ensures
        0 <= wave_height(d) <= 103,
{
    assert(0 <= d as int * 104 / 256 <= 103) by (nonlinear_arith)
        requires
            0 <= d <= 255,
    ;
}

fn draw_segment(image: &mut [Color], lo: usize, hi: usize, col: usize, wave_color: Color)
    requires
        lo <= hi <= 103,
        col + 1 < 640,
        old(image)@.len() >= 360 * 640,
    ensures
        final(image)@.len() == old(image)@.len(),
        forall|p: int|
            0 <= p < final(image)@.len() ==> final(image)@[p] == if on_segment(
                lo as int,
                hi as int,
                col as int,
                p,
            ) {
                wave_color
            } else {
                old(image)@[p]
            },
{
    let ghost orig = image@;
    for r in lo..hi + 1
        invariant
            lo <= hi <= 103,
            col + 1 < 640,
            image@.len() == orig.len(),
            orig.len() >= 360 * 640,
            forall|p: int|
                0 <= p < image@.len() ==> image@[p] == if on_segment(
                    lo as int,
                    r - 1,
                    col as int,
                    p,
                ) {
                    wave_color
                } else {
                    orig[p]
                },
    {
        let row = HEIGHT - r - 1;
        assert(row * 640 + col + 1 < 360 * 640) by (nonlinear_arith)
            requires
                row < 360,
                col + 1 < 640,
        ;
        image[row * WIDTH + col] = wave_color;
        image[row * WIDTH + col + 1] = wave_color;
        proof {
            let q = row * 640 + col;
            lemma_row_col(row as int, col as int);
            lemma_row_col(row as int, col + 1);
            assert(row * 640 >= 256 * 640) by (nonlinear_arith)
                requires
                    row >= 256,
            ;
            assert forall|p: int| 0 <= p < image@.len() implies image@[p] == if on_segment(
                lo as int,
                r as int,
                col as int,
                p,
            ) {
                wave_color
            } else {
                orig[p]
            } by {
                vstd::arithmetic::div_mod::lemma_fundamental_div_mod(p, 640);
                if p == q || p == q + 1 {
                } else {
                    if on_segment(lo as int, r as int, col as int, p) && 359 - p / 640 == r {
                        assert(p / 640 == row);
                        assert(p == row * 640 + p % 640);
                    }
                }
            }
        }
    }
}

} // verus!

verus! {

fn draw_waveform(image: &mut [Color], data: &[u8], base: usize, wave_color: Color)
    requires
        base + 256 <= data@.len(),
        old(image)@.len() >= 360 * 640,
    ensures
        final(image)@.len() == old(image)@.len(),
        forall|p: int|
            0 <= p < final(image)@.len() ==> final(image)@[p] == if painted(
                data@,
                base as int,
                255,
                p,
            ) {
                wave_color
            } else {
                old(image)@[p]
            },
{
    let ghost orig = image@;
    let _ = data.len();
    for sample in 0..BG_HEIGHT - 1
        invariant
            base + 256 <= data@.len(),
            data@.len() <= usize::MAX,
            image@.len() == orig.len(),
            orig.len() >= 360 * 640,
            forall|p: int|
                0 <= p < image@.len() ==> image@[p] == if painted(
                    data@,
                    base as int,
                    sample as int,
                    p,
                ) {
                    wave_color
                } else {
                    orig[p]
                },
    {
        let ghost before = image@;
        let d0 = data[base + sample];
        let d1 = data[base + sample + 1];
        proof {
            lemma_wave_height_bound(d0);
            lemma_wave_height_bound(d1);
        }
        let x0 = d0 as usize * WV_HEIGHT / 256;
        let x1 = d1 as usize * WV_HEIGHT / 256;
        let mid = (x0 + x1) / 2;
        assert(sample * 640 / 256 <= 635) by (nonlinear_arith)
            requires
                sample < 255,
        ;
        let col = sample * WIDTH / BG_HEIGHT;
        let (lo0, hi0) = if x0 <= mid {
            (x0, mid)
        } else {
            (mid, x0)
        };
        let (lo1, hi1) = if x1 <= mid {
            (x1, mid)
        } else {
            (mid, x1)
        };
        draw_segment(image, lo0, hi0, col, wave_color);
        draw_segment(image, lo1, hi1, col + 1, wave_color);
        proof {
            assert forall|p: int| 0 <= p < image@.len() implies image@[p] == if painted(
                data@,
                base as int,
                sample + 1,
                p,
            ) {
                wave_color
            } else {
                orig[p]
            } by {
                assert(sample_hits(data@, base as int, sample as int, p) == (on_segment(
                    lo0 as int,
                    hi0 as int,
                    col as int,
                    p,
                ) || on_segment(lo1 as int, hi1 as int, col + 1, p)));
            }
        }
    }
}

/// Draws one frame of the video into `image` (640 x 360 pixels, row by row):
/// the background shows the audio `data` as brightness of `bg_color`, one
/// column of 256 samples per pixel column, starting at column `bg_offset`;
/// the strip below shows the waveform of the 256 samples under the cursor in
/// `wave_color`; the cursor at column `cursor_col` is drawn in `scan_color`.
pub fn render_frame(
    image: &mut [Color],
    data: &[u8],
    bg_offset: usize,
    cursor_col: usize,
    bg_color: Color,
    wave_color: Color,
    scan_color: Color,
)
    requires
        old(image)@.len() >= 360 * 640,
        (bg_offset + 640) * 256 <= data@.len(),
        (bg_offset + cursor_col + 1) * 256 <= data@.len(),
        255 * 640 + cursor_col < old(image)@.len(),
    ensures
        final(image)@.len() == old(image)@.len(),
        forall|p: int|
            0 <= p < 360 * 640 ==> final(image)@[p] == frame_pixel(
                data@,
                bg_offset as int,
                cursor_col as int,
                bg_color,
                wave_color,
                scan_color,
                p,
            ),
        forall|p: int|
            360 * 640 <= p < final(image)@.len() ==> final(image)@[p] == if is_cursor(
                cursor_col as int,
                p,
            ) {
                scan_color
            } else {
                old(image)@[p]
            },
{
    let ghost orig = image@;
    draw_background(image, data, bg_offset, bg_color);
    let ghost after_bg = image@;
    clear_strip(image);
    let ghost after_clear = image@;
    let _ = data.len();
    assert(bg_offset + cursor_col <= data@.len()) by (nonlinear_arith)
        requires
            (bg_offset + cursor_col + 1) * 256 <= data@.len(),
    ;
    let waveform_col = bg_offset + cursor_col;
    assert(waveform_col * 256 + 256 <= data@.len()) by (nonlinear_arith)
        requires
            (bg_offset + cursor_col + 1) * 256 <= data@.len(),
            waveform_col == bg_offset + cursor_col,
    ;
    draw_waveform(image, data, waveform_col * BG_HEIGHT, wave_color);
    let ghost after_wave = image@;
    draw_cursor(image, cursor_col, scan_color);
    proof {
        assert forall|p: int| 0 <= p < 360 * 640 implies image@[p] == frame_pixel(
            data@,
            bg_offset as int,
            cursor_col as int,
            bg_color,
            wave_color,
            scan_color,
            p,
        ) by {
            if p >= 256 * 640 {
            } else {
                assert(!painted(data@, (waveform_col * 256) as int, 255, p)) by {
                    lemma_painted_in_strip(data@, (waveform_col * 256) as int, 255, p);
                }
            }
        }
        assert forall|p: int| 360 * 640 <= p < image@.len() implies image@[p] == if is_cursor(
            cursor_col as int,
            p,
        ) {
            scan_color
        } else {
            orig[p]
        } by {
            lemma_painted_in_strip(data@, (waveform_col * 256) as int, 255, p);
        }
    }
}

proof fn lemma_painted_in_strip(data: Seq<u8>, base: int, k: int, p: int)
    ensures
        painted(data, base, k, p) ==> 256 * 640 <= p < 360 * 640,
    decreases k,
{
    if k > 0 {
        lemma_painted_in_strip(data, base, k - 1, p);
    }
}

} // verus!

verus! {

/// The sizes of a 30-second video at `hz` samples per second: the number of
/// frames, the number of audio samples, and the width in pixel columns of
/// the whole background (256 samples per column).
pub fn video_plan(hz: usize) -> (r: (usize, usize, usize))
    requires
        450 * hz <= usize::MAX,
    ensures
        r.0 == FPS * 30,
        r.1 == r.0 * hz / (FPS as int),
        r.2 == r.1 / BG_HEIGHT,
{
    let frame_count = FPS * 30;
    let size = frame_count * hz / FPS;
    let full_width = size / BG_HEIGHT;
    (frame_count, size, full_width)
}

/// Where frame `frame` of `frame_count` looks at a background `full_width`
/// columns wide: the first background column shown, and the column of the
/// cursor on screen. The cursor position `x` moves evenly over the whole
/// background; the view keeps it at the middle of the screen where it can,
/// without leaving the background.
pub fn frame_window(frame: usize, frame_count: usize, full_width: usize) -> (r: (usize, usize))
    requires
        frame_count > 0,
        full_width >= WIDTH,
        frame * full_width <= usize::MAX,
    ensures
        ({
            let x = frame * full_width / (frame_count as int);
            let start = if x >= 320 {
                x - 320
            } else {
                0
            };
            &&& r.0 == if start <= full_width - 640 {
                start
            } else {
                full_width - 640
            }
            &&& r.1 == x - r.0
            &&& r.0 + 640 <= full_width
        }),
        frame < frame_count ==> r.0 + r.1 < full_width && r.1 < 640,
{
    let x = frame * full_width / frame_count;
    if frame < frame_count {
        assert(x < full_width) by (nonlinear_arith)
            requires
                frame < frame_count,
                x == frame * full_width / (frame_count as int),
                full_width >= 640,
        ;
    }
    let start = x.saturating_sub(WIDTH / 2);
    let bg_offset = if start <= full_width - WIDTH {
        start
    } else {
        full_width - WIDTH
    };
    let cursor_col = x - bg_offset;
    (bg_offset, cursor_col)
}

/// Audio sample `i` of a program: the program evaluated at the double `i`,
/// read as an integer and truncated to a byte.
pub open spec fn audio_sample(code: Seq<Cmd>, i: int, o: spec_fn(FloatOp) -> u64) -> u8 {
    match result_of(code, Val::F(o(FloatOp::Widen(i as i64))), o) {
        Some(v) => int_of(v, o) as u8,
        None => 0,
    }
}

/// The first `size` audio samples of a program, at times `0.0, 1.0, 2.0, ...`.
pub fn render_audio<F: Fn(FloatOp) -> u64>(program: &Program, size: usize, float: &F) -> (r: Vec<u8>)
    requires
        total(*float),
        size <= isize::MAX,
    ensures
        r@.len() == size,
        forall|o: spec_fn(FloatOp) -> u64, i: int|
            answers(*float, o) && 0 <= i < size ==> r@[i] == #[trigger] audio_sample(program.code(), i, o),
{
    let mut data: Vec<u8> = Vec::new();
    for i in 0..size
        invariant
            total(*float),
            size <= isize::MAX,
            data@.len() == i,
            forall|o: spec_fn(FloatOp) -> u64, j: int|
                answers(*float, o) && 0 <= j < i ==> data@[j] == #[trigger] audio_sample(program.code(), j, o),
    {
        let b = as_bits(Val::I(i as i64), float);
        let t = Val::F(b);
        let v = eval_program(program, t, float);
        let x = v.to_sample(float);
        let ghost before = data@;
        data.push(x);
        proof {
            assert forall|o: spec_fn(FloatOp) -> u64, j: int|
                answers(*float, o) && 0 <= j < i + 1 implies data@[j] == #[trigger] audio_sample(
                program.code(),
                j,
                o,
            ) by {
                if j < i {
                    assert(data@[j] == before[j]);
                } else {
                    assert(j as i64 == i as i64);
                    assert(b == bits_of(Val::I(i as i64), o));
                    assert(t == Val::F(o(FloatOp::Widen(j as i64))));
                    assert(result_of(program.code(), t, o) == Some(v));
                    assert(x == int_of(v, o) as u8);
                }
            }
        }
    }
    data
}

} // verus!
