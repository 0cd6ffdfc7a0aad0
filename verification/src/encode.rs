use vstd::prelude::*;

pub use crate::color::Color;
use crate::numbers::{digits_of, push_unsigned};
use crate::text::{chars_of, push_str};

verus! {

broadcast use vstd::string::group_string_axioms;

/// Settings for turning raw audio and frames into a video. Paths are kept
/// as text.
pub struct EncoderConfig {
    width: usize,
    height: usize,
    fps: usize,
    audio_rate: Option<usize>,
    audio_path: Option<String>,
    video_path: Option<String>,
}

/// The settings of an `EncoderConfig`, with paths as character sequences.
pub struct Settings {
    pub width: usize,
    pub height: usize,
    pub fps: usize,
    pub audio_rate: Option<usize>,
    pub audio_path: Option<Seq<char>>,
    pub video_path: Option<Seq<char>>,
}

pub open spec fn path_view(p: Option<String>) -> Option<Seq<char>> {
    match p {
        Some(s) => Some(s@),
        None => None,
    }
}

impl EncoderConfig {
    pub closed spec fn settings(self) -> Settings {
        Settings {
            width: self.width,
            height: self.height,
            fps: self.fps,
            audio_rate: self.audio_rate,
            audio_path: path_view(self.audio_path),
            video_path: path_view(self.video_path),
        }
    }

    /// A configuration for frames of `width` x `height` pixels at 30 frames
    /// per second, with no audio rate and no paths yet.
    pub fn with_dimensions(width: usize, height: usize) -> (r: EncoderConfig)
        ensures
            r.settings() == (Settings {
                width,
                height,
                fps: 30,
                audio_rate: None,
                audio_path: None,
                video_path: None,
            }),
    {
        EncoderConfig {
            width,
            height,
            fps: 30,
            audio_rate: None,
            audio_path: None,
            video_path: None,
        }
    }

    pub fn fps(self, fps: usize) -> (r: EncoderConfig)
        ensures
            r.settings() == (Settings { fps, ..self.settings() }),
    {
        EncoderConfig { fps, ..self }
    }

    pub fn audio_rate(self, rate: usize) -> (r: EncoderConfig)
        ensures
            r.settings() == (Settings { audio_rate: Some(rate), ..self.settings() }),
    {
        EncoderConfig { audio_rate: Some(rate), ..self }
    }

    pub fn audio_path(self, path: String) -> (r: EncoderConfig)
        ensures
            r.settings() == (Settings { audio_path: Some(path@), ..self.settings() }),
    {
        EncoderConfig { audio_path: Some(path), ..self }
    }

    pub fn video_path(self, path: String) -> (r: EncoderConfig)
        ensures
            r.settings() == (Settings { video_path: Some(path@), ..self.settings() }),
    {
        EncoderConfig { video_path: Some(path), ..self }
    }

    /// Both paths, or the message for the first one that is missing.
    pub fn paths(&self) -> (r: Result<(&String, &String), &'static str>)
        ensures
            match r {
                Ok((a, v)) => self.settings().audio_path == Some(a@) && self.settings().video_path
                    == Some(v@),
                Err(msg) => {
                    ||| self.settings().audio_path is None && msg@ == "audio path not set"@
                    ||| self.settings().audio_path is Some && self.settings().video_path is None
                        && msg@ == "video path not set"@
                },
            },
    {
        let a = match &self.audio_path {
            Some(a) => a,
            None => return Err("audio path not set"),
        };
        let v = match &self.video_path {
            Some(v) => v,
            None => return Err("video path not set"),
        };
        Ok((a, v))
    }

    /// The audio rate, or the message that it is missing.
    pub fn rate(&self) -> (r: Result<usize, &'static str>)
        ensures
            match r {
                Ok(x) => self.settings().audio_rate == Some(x),
                Err(msg) => self.settings().audio_rate is None && msg@ == "audio rate not set"@,
            },
    {
        match self.audio_rate {
            Some(x) => Ok(x),
            None => Err("audio rate not set"),
        }
    }

    /// The frame size and frame rate.
    pub fn geometry(&self) -> (r: (usize, usize, usize))
        ensures
            r == (self.settings().width, self.settings().height, self.settings().fps),
    {
        (self.width, self.height, self.fps)
    }
}

/// The header of a binary PPM image: `P6`, the size, and the maximum
/// channel value 255, each on a line.
pub open spec fn ppm_header_text(width: usize, height: usize) -> Seq<char> {
    seq!['P', '6', '\n'] + digits_of(width as nat, 10) + seq![' '] + digits_of(height as nat, 10)
        + seq!['\n', '2', '5', '5', '\n']
}

/// The header of a binary PPM image of `width` x `height` pixels.
pub fn ppm_header(width: usize, height: usize) -> (r: String)
    ensures
        r@ == ppm_header_text(width, height),
{
    let mut out = String::new();
    out.push('P');
    out.push('6');
    out.push('\n');
    push_unsigned(&mut out, width as u64);
    out.push(' ');
    push_unsigned(&mut out, height as u64);
    out.push('\n');
    out.push('2');
    out.push('5');
    out.push('5');
    out.push('\n');
    assert(out@ =~= ppm_header_text(width, height));
    out
}

/// The bytes of a text: each character taken as a byte.
pub open spec fn text_bytes(s: Seq<char>) -> Seq<u8> {
    s.map_values(|c: char| (c as u32) as u8)
}

/// The pixel data of a binary PPM image: the three channels of every pixel,
/// pixel after pixel.
pub open spec fn pixel_bytes(buf: Seq<Color>) -> Seq<u8> {
    Seq::new(3 * buf.len(), |i: int| buf[i / 3].0[i % 3])
}

/// The pixel data of a binary PPM image.
pub fn ppm_pixels(buf: &[Color]) -> (r: Vec<u8>)
    ensures
        r@ == pixel_bytes(buf@),
{
    let mut out: Vec<u8> = Vec::new();
    let n = buf.len();
    for i in 0..n
        invariant
            n == buf@.len(),
            out@.len() == 3 * i,
            forall|j: int, k: int| 0 <= j < i && 0 <= k < 3 ==> out@[3 * j + k] == buf@[j].0[k],
    {
        let px = buf[i];
        out.push(px.0[0]);
        out.push(px.0[1]);
        out.push(px.0[2]);
        proof {
            assert forall|j: int, k: int| 0 <= j < i + 1 && 0 <= k < 3 implies out@[3 * j + k]
                == buf@[j].0[k] by {
                if j == i {
                    assert(3 * j + k == 3 * i + k);
                } else {
                    assert(3 * j + k < 3 * i) by (nonlinear_arith)
                        requires
                            j < i,
                            k < 3,
                    ;
                }
            }
        }
    }
    proof {
        assert forall|m: int| 0 <= m < out@.len() implies out@[m] == pixel_bytes(buf@)[m] by {
            let j = m / 3;
            let k = m % 3;
            assert(m == 3 * j + k && 0 <= j < n && 0 <= k < 3) by (nonlinear_arith)
                requires
                    0 <= m < 3 * n,
                    j == m / 3,
                    k == m % 3,
            ;
        }
        assert(out@ =~= pixel_bytes(buf@));
    }
    out
}

/// Appends a binary PPM image of `width` x `height` pixels to `out`: the
/// header, then the channels of every pixel of `buf`.
pub fn write_ppm(out: &mut Vec<u8>, buf: &[Color], width: usize, height: usize)
    ensures
        final(out)@ == old(out)@ + text_bytes(ppm_header_text(width, height)) + pixel_bytes(buf@),
{
    let header = chars_of(ppm_header(width, height).as_str());
    let ghost start = out@;
    let n = header.len();
    for i in 0..n
        invariant
            n == header@.len(),
            header@ == ppm_header_text(width, height),
            out@ == start + text_bytes(header@.take(i as int)),
    {
        let c = header[i];
        out.push((c as u32) as u8);
        assert(text_bytes(header@.take(i + 1)) =~= text_bytes(header@.take(i as int)).push(
            (c as u32) as u8,
        ));
    }
    assert(header@.take(n as int) =~= header@);
    let pixels = ppm_pixels(buf);
    let mut j: usize = 0;
    let ghost mid = out@;
    while j < pixels.len()
        invariant
            j <= pixels@.len(),
            out@ == mid + pixels@.take(j as int),
        decreases pixels@.len() - j,
    {
        out.push(pixels[j]);
        assert(pixels@.take(j + 1) =~= pixels@.take(j as int).push(pixels@[j as int]));
        j = j + 1;
    }
    assert(pixels@.take(j as int) =~= pixels@);
}

fn decimal_string(x: usize) -> (r: String)
    ensures
        r@ == digits_of(x as nat, 10),
{
    let mut s = String::new();
    push_unsigned(&mut s, x as u64);
    assert(s@ =~= digits_of(x as nat, 10));
    s
}

fn text(s: &str) -> (r: String)
    ensures
        r@ == s@,
{
    let mut out = String::new();
    push_str(&mut out, s);
    assert(out@ =~= s@);
    out
}

/// The arguments for `ffmpeg` that turn the PPM frames at `video_path` and
/// the unsigned 8-bit mono audio at `audio_path` into the video `out`.
pub fn ffmpeg_args(
    fps: usize,
    audio_rate: usize,
    width: usize,
    height: usize,
    video_path: &str,
    audio_path: &str,
    out: &str,
) -> (r: Vec<String>)
    ensures
        r@.len() == 20,
        r@[0]@ == "-r"@,
        r@[1]@ == digits_of(fps as nat, 10),
        r@[2]@ == "-f"@,
        r@[3]@ == "image2pipe"@,
        r@[4]@ == "-i"@,
        r@[5]@ == video_path@,
        r@[6]@ == "-f"@,
        r@[7]@ == "u8"@,
        r@[8]@ == "-ar"@,
        r@[9]@ == digits_of(audio_rate as nat, 10),
        r@[10]@ == "-ac"@,
        r@[11]@ == "1"@,
        r@[12]@ == "-i"@,
        r@[13]@ == audio_path@,
        r@[14]@ == "-pix_fmt"@,
        r@[15]@ == "yuv420p"@,
        r@[16]@ == "-y"@,
        r@[17]@ == "-s"@,
        r@[18]@ == digits_of(width as nat, 10) + seq!['x'] + digits_of(height as nat, 10),
        r@[19]@ == out@,
{
    let mut size = String::new();
    push_unsigned(&mut size, width as u64);
    size.push('x');
    push_unsigned(&mut size, height as u64);
    assert(size@ =~= digits_of(width as nat, 10) + seq!['x'] + digits_of(height as nat, 10));
    let mut args: Vec<String> = Vec::new();
    args.push(text("-r"));
    args.push(decimal_string(fps));
    args.push(text("-f"));
    args.push(text("image2pipe"));
    args.push(text("-i"));
    args.push(text(video_path));
    args.push(text("-f"));
    args.push(text("u8"));
    args.push(text("-ar"));
    args.push(decimal_string(audio_rate));
    args.push(text("-ac"));
    args.push(text("1"));
    args.push(text("-i"));
    args.push(text(audio_path));
    args.push(text("-pix_fmt"));
    args.push(text("yuv420p"));
    args.push(text("-y"));
    args.push(text("-s"));
    args.push(size);
    args.push(text(out));
    args
}

} // verus!
