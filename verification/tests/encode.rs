use bytebeat::encode::{ffmpeg_args, ppm_header, ppm_pixels, write_ppm, Color, EncoderConfig};

#[test]
fn color_mul_scales_channels() {
    assert_eq!(Color([255, 128, 0]) * 255, Color([254, 127, 0]));
    assert_eq!(Color([255, 100, 16]) * 128, Color([127, 50, 8]));
    assert_eq!(Color([64, 128, 255]) * 0, Color([0, 0, 0]));
    assert_eq!(Color([1, 2, 3]) * 255, Color([0, 1, 2]));
}

#[test]
fn config_defaults() {
    let c = EncoderConfig::with_dimensions(640, 360);
    assert_eq!(c.geometry(), (640, 360, 30));
    assert_eq!(c.paths().err(), Some("audio path not set"));
    assert_eq!(c.rate().err(), Some("audio rate not set"));
}

#[test]
fn config_builders() {
    let c = EncoderConfig::with_dimensions(640, 360)
        .fps(15)
        .audio_rate(8000)
        .audio_path("audio.pcm".to_string());
    assert_eq!(c.geometry(), (640, 360, 15));
    assert_eq!(c.rate(), Ok(8000));
    assert_eq!(c.paths().err(), Some("video path not set"));
    let c = c.video_path("video.ppm".to_string());
    let (a, v) = c.paths().unwrap();
    assert_eq!(a, "audio.pcm");
    assert_eq!(v, "video.ppm");
}

#[test]
fn config_video_path_alone() {
    let c = EncoderConfig::with_dimensions(2, 2).video_path("v".to_string());
    assert_eq!(c.paths().err(), Some("audio path not set"));
}

#[test]
fn ppm_header_text() {
    assert_eq!(ppm_header(640, 360), "P6\n640 360\n255\n");
    assert_eq!(ppm_header(0, 7), "P6\n0 7\n255\n");
}

#[test]
fn ppm_pixels_flatten_channels() {
    let px = [Color([1, 2, 3]), Color([4, 5, 6])];
    assert_eq!(ppm_pixels(&px), vec![1, 2, 3, 4, 5, 6]);
    assert_eq!(ppm_pixels(&[]), Vec::<u8>::new());
}

#[test]
fn write_ppm_appends_image() {
    let mut out = b"xy".to_vec();
    write_ppm(&mut out, &[Color([9, 8, 7])], 1, 1);
    let mut expected = b"xyP6\n1 1\n255\n".to_vec();
    expected.extend_from_slice(&[9, 8, 7]);
    assert_eq!(out, expected);
}

#[test]
fn ffmpeg_arguments() {
    let args = ffmpeg_args(15, 8000, 640, 360, "video.ppm", "audio.pcm", "out.mp4");
    let expected = [
        "-r", "15", "-f", "image2pipe", "-i", "video.ppm", "-f", "u8", "-ar", "8000", "-ac", "1", "-i",
        "audio.pcm", "-pix_fmt", "yuv420p", "-y", "-s", "640x360", "out.mp4",
    ];
    assert_eq!(args, expected.iter().map(|s| s.to_string()).collect::<Vec<_>>());
}
