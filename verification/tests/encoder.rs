use fast6::decimal::parse_decimal;
use fast6::encoder::{
    build_args, build_job, calc_crop, can_build, detect_encoder, ffprobe_from_ffmpeg, job_out_dir,
    list_encoders, list_encoders_args, nvenc_preset, nvenc_test_args, pick_encoder, preset_num,
    x26x_preset, Codec, CropMode, ProbeResult, StreamSummary, VideoEncoder, VideoInfo, EXTENSIONS,
};
use fast6::path::Platform;

fn info(w: i64, h: i64) -> VideoInfo {
    VideoInfo {
        w,
        h,
        hdr: false,
        ten_bit: false,
        trc: String::new(),
        primaries: String::new(),
        space: String::new(),
        range: "tv".to_string(),
    }
}

fn probed(w: i64, h: i64, kbps: i64, channels: i64) -> ProbeResult {
    let mut s = StreamSummary::blank();
    let secs: Vec<char> = "60".chars().collect();
    s.duration = parse_decimal(&secs).unwrap();
    s.dur_str = "0:01:00".to_string();
    s.v_res = format!("{w}x{h}");
    s.v_fps = "24.000".to_string();
    s.a_layout = "5.1 (6 ch)".to_string();
    s.a_rate = "48000 Hz".to_string();
    ProbeResult { inf: info(w, h), streams: s, src_kbps: kbps, channels }
}

fn value_after(args: &[String], key: &str) -> Option<String> {
    args.iter().position(|a| a == key).and_then(|i| args.get(i + 1)).cloned()
}

#[test]
fn names_of_codecs_and_encoders() {
    assert_eq!(EXTENSIONS, ["mp4", "mkv", "avi", "mov"]);
    assert_eq!((Codec::H264.label(), Codec::H265.label(), Codec::Av1.label()), ("H264", "H265", "AV1"));
    assert_eq!(Codec::H265.nvenc(), "hevc_nvenc");
    assert_eq!(VideoEncoder::Nvenc("av1_nvenc").label(), "av1_nvenc (GPU)");
    assert_eq!(VideoEncoder::X26x("libx264").label(), "libx264 (CPU)");
    assert_eq!(VideoEncoder::Svt.label(), "libsvtav1 (CPU)");
    assert_eq!(VideoEncoder::Aom.label(), "libaom-av1 (CPU)");
    assert_eq!(VideoEncoder::Nvenc("h264_nvenc").codec_name(), "H264");
    assert_eq!(VideoEncoder::X26x("libx264").codec_name(), "H264");
    assert_eq!(VideoEncoder::Nvenc("hevc_nvenc").codec_name(), "H265");
    assert_eq!(VideoEncoder::X26x("other").codec_name(), "H265");
    assert_eq!(VideoEncoder::Nvenc("other").codec_name(), "AV1");
    assert_eq!(VideoEncoder::Svt.codec_name(), "AV1");
}

#[test]
fn encoders_are_detected() {
    let none: Option<Vec<u8>> = None;
    assert!(detect_encoder(Codec::Av1, true, &none) == VideoEncoder::Nvenc("av1_nvenc"));
    assert!(detect_encoder(Codec::H264, false, &none) == VideoEncoder::Nvenc("h264_nvenc"));
    let listed = Some(b" V..... LibX264 x\n V..... libaom-av1 \xff".to_vec());
    assert!(detect_encoder(Codec::H264, false, &listed) == VideoEncoder::X26x("libx264"));
    assert!(detect_encoder(Codec::H265, false, &listed) == VideoEncoder::Nvenc("hevc_nvenc"));
    assert!(detect_encoder(Codec::Av1, false, &listed) == VideoEncoder::Aom);
    assert!(pick_encoder(Codec::Av1, false, "libaom-av1 libsvtav1") == VideoEncoder::Svt);
    assert!(pick_encoder(Codec::H265, false, "libx265") == VideoEncoder::X26x("libx265"));
}

#[test]
fn listed_encoders_are_lower_case_text() {
    assert_eq!(list_encoders(&Some(b"LibX264 \xc3\x89 \xff".to_vec())), "libx264 é \u{fffd}");
    assert_eq!(list_encoders(&None), "");
}

#[test]
fn test_commands() {
    assert_eq!(
        nvenc_test_args("av1_nvenc"),
        vec![
            "-hide_banner", "-loglevel", "error", "-f", "lavfi", "-i",
            "color=c=black:s=256x256:r=30", "-frames:v", "1", "-c:v", "av1_nvenc", "-f", "null", "-",
        ]
    );
    assert_eq!(list_encoders_args(), vec!["-hide_banner", "-encoders"]);
}

#[test]
fn presets() {
    assert_eq!((preset_num("p1"), preset_num("P7"), preset_num("pp3")), (1, 7, 3));
    assert_eq!((preset_num("fast"), preset_num(""), preset_num("p-2")), (7, 7, -2));
    for n in 1..=7 {
        assert_eq!(nvenc_preset(n), format!("p{}", 8 - n));
    }
    assert_eq!(nvenc_preset(0), "p7");
    assert_eq!(nvenc_preset(9), "p1");
    let names = ["veryslow", "slower", "slow", "medium", "fast", "faster", "veryfast"];
    for (i, name) in names.iter().enumerate() {
        assert_eq!(x26x_preset(i as i64 + 1), *name);
    }
    assert_eq!(x26x_preset(99), "veryfast");
    assert_eq!(x26x_preset(0), "veryfast");
}

fn crop_by_float(w: i64, h: i64, mode: CropMode) -> Option<String> {
    if mode == CropMode::NoCrop {
        return None;
    }
    let mut new_h = ((w as f64) * 1440.0 / 3440.0).round() as i64;
    new_h -= new_h % 2;
    if new_h >= h {
        return None;
    }
    let cut = h - new_h;
    let mut y = if mode == CropMode::Centered { cut / 2 } else { ((cut as f64) / 3.0).round() as i64 };
    y -= y % 2;
    Some(format!("{w}:{new_h}:0:{y}"))
}

#[test]
fn crops() {
    assert_eq!(calc_crop(3840, 2160, CropMode::Centered), Some("3840:1606:0:276".to_string()));
    assert_eq!(calc_crop(3840, 2160, CropMode::OneThird), Some("3840:1606:0:184".to_string()));
    assert_eq!(calc_crop(3840, 2160, CropMode::NoCrop), None);
    assert_eq!(calc_crop(3440, 1440, CropMode::Centered), None);
    assert_eq!(calc_crop(1920, 800, CropMode::Centered), None);
    for w in [-7i64, 0, 1, 2, 16, 640, 1280, 1919, 1920, 2560, 3841, 7680, 65536] {
        for h in [-4i64, 0, 1, 2, 9, 480, 720, 1080, 1601, 2160, 4320, 40000] {
            for mode in [CropMode::Centered, CropMode::OneThird, CropMode::NoCrop] {
                assert_eq!(calc_crop(w, h, mode), crop_by_float(w, h, mode), "{w} {h}");
            }
        }
    }
}

#[test]
fn huge_pictures_are_cropped_as_floats_give_it() {
    let wide = [(1i64 << 43) + 1, (1 << 53) + 1, (1 << 60) + 12345, i64::MAX, -(1 << 55) - 3, i64::MIN];
    let high = [0i64, 1079, (1 << 44) + 7, (1 << 53) + 1, 6755399441055745, i64::MAX - 1, i64::MAX];
    for w in wide {
        for h in high {
            let new_h = ((w as f64) * 1440.0 / 3440.0).round() as i64;
            if h.checked_sub(new_h).is_some() && h.checked_sub(new_h - new_h % 2).is_some() {
                for mode in [CropMode::Centered, CropMode::OneThird] {
                    assert_eq!(calc_crop(w, h, mode), crop_by_float(w, h, mode), "{w} {h}");
                }
            }
        }
    }
    for h in [(1i64 << 50) - 1, (1 << 51) + 5, 3 * (1 << 51) + 1, (1 << 62) + 11] {
        assert_eq!(calc_crop(16, h, CropMode::OneThird), crop_by_float(16, h, CropMode::OneThird));
    }
}

#[test]
fn a_crop_stays_inside_and_happens_once() {
    for (w, h) in [(1920, 1080), (3840, 2160), (1280, 720), (720, 576)] {
        for mode in [CropMode::Centered, CropMode::OneThird] {
            let c = calc_crop(w, h, mode).unwrap();
            let p: Vec<i64> = c.split(':').map(|x| x.parse().unwrap()).collect();
            assert!(p[0] == w && p[1] > 0 && p[3] >= 0 && p[3] + p[1] <= h);
            assert!(p[1] % 2 == 0 && p[3] % 2 == 0);
            assert_eq!(calc_crop(w, p[1], mode), None);
        }
    }
}

#[test]
fn arguments_for_the_gpu() {
    let p = probed(3840, 2160, 0, 6);
    assert!(can_build(&p, 10000, 8000));
    let (args, text, target) = build_args(
        "in.mkv", "out.mp4", &p, CropMode::Centered, "p2", 10000, 8000,
        VideoEncoder::Nvenc("hevc_nvenc"),
    );
    assert_eq!(
        args,
        vec![
            "-hide_banner", "-y", "-hwaccel", "cuda", "-i", "in.mkv", "-vf",
            "crop=3840:1606:0:276", "-map", "0:0", "-map", "0:1", "-c:v", "hevc_nvenc", "-preset",
            "p6", "-rc", "vbr", "-b:v", "10000k", "-maxrate", "15000k", "-bufsize", "20000k", "-af",
            "aformat=channel_layouts=7.1|5.1|stereo|mono", "-c:a", "aac", "-b:a", "384k",
            "-movflags", "+faststart", "out.mp4",
        ]
    );
    assert_eq!(text, "3840x2160 -> 10000k · hevc_nvenc (GPU) crop[3840:1606:0:276]");
    assert_eq!(target.v_codec, "H265");
    assert_eq!(target.v_res, "3840x1606");
    assert_eq!((target.v_bits.as_str(), target.v_fmt.as_str()), ("8-bit", "nv12"));
    assert_eq!(target.v_bitrate, "10000 kbps");
    assert_eq!((target.a_codec.as_str(), target.a_bitrate.as_str()), ("AAC", "384 kbps"));
    assert_eq!(target.dur_str, "0:01:00");
}

#[test]
fn arguments_for_the_other_encoders() {
    let p = probed(1280, 720, 3001, 2);
    let none = CropMode::NoCrop;
    let (a, text, t) = build_args("i", "o", &p, none, "p7", 6000, 4000, VideoEncoder::X26x("libx264"));
    assert_eq!(value_after(&a, "-preset"), Some("veryfast".to_string()));
    assert_eq!(value_after(&a, "-b:v"), Some("3001k".to_string()));
    assert_eq!(value_after(&a, "-maxrate"), Some("4502k".to_string()));
    assert_eq!(value_after(&a, "-bufsize"), Some("6002k".to_string()));
    assert_eq!(value_after(&a, "-b:a"), Some("192k".to_string()));
    assert_eq!(text, "1280x720 -> 3001k (orig) · libx264 (CPU)");
    assert_eq!(t.v_fmt, "yuv420p");
    let (a, _, _) = build_args("i", "o", &p, none, "p3", 6000, 4000, VideoEncoder::Svt);
    assert_eq!(value_after(&a, "-preset"), Some("3".to_string()));
    assert_eq!(value_after(&a, "-maxrate"), None);
    let (a, _, _) = build_args("i", "o", &p, none, "p20", 6000, 4000, VideoEncoder::Svt);
    assert_eq!(value_after(&a, "-preset"), Some("13".to_string()));
    let (a, _, _) = build_args("i", "o", &p, none, "p1", 6000, 4000, VideoEncoder::Aom);
    assert_eq!(value_after(&a, "-cpu-used"), Some("0".to_string()));
    assert_eq!(value_after(&a, "-row-mt"), Some("1".to_string()));
    assert_eq!(a.last().unwrap(), "o");
    assert_eq!(value_after(&a, "-i"), Some("i".to_string()));
}

#[test]
fn depth_and_colours_are_kept() {
    let mut p = probed(1920, 1080, 0, 2);
    p.inf.ten_bit = true;
    p.inf.hdr = true;
    p.inf.trc = "smpte2084".to_string();
    p.inf.primaries = "bt2020".to_string();
    p.inf.space = "bt2020nc".to_string();
    let nc = CropMode::NoCrop;
    let (a, text, t) = build_args("i", "o", &p, nc, "p1", 6000, 4000, VideoEncoder::Nvenc("av1_nvenc"));
    assert_eq!(value_after(&a, "-pix_fmt"), Some("p010le".to_string()));
    assert_eq!(value_after(&a, "-color_primaries"), Some("bt2020".to_string()));
    assert_eq!(value_after(&a, "-color_trc"), Some("smpte2084".to_string()));
    assert_eq!(value_after(&a, "-colorspace"), Some("bt2020nc".to_string()));
    assert_eq!(value_after(&a, "-color_range"), Some("tv".to_string()));
    assert_eq!(text, "1920x1080 -> 4000k · av1_nvenc (GPU) 10-bit HDR");
    assert_eq!(t.v_bits, "10-bit");
    let (a, text, t) = build_args("i", "o", &p, nc, "p1", 6000, 4000, VideoEncoder::Nvenc("h264_nvenc"));
    assert_eq!(value_after(&a, "-pix_fmt"), None);
    assert_eq!(text, "1920x1080 -> 4000k · h264_nvenc (GPU) 8-bit(!) HDR");
    assert_eq!(t.v_bits, "8-bit");
    let (a, _, _) = build_args("i", "o", &p, nc, "p1", 6000, 4000, VideoEncoder::Svt);
    assert_eq!(value_after(&a, "-pix_fmt"), Some("yuv420p10le".to_string()));
}

#[test]
fn the_rate_is_capped_and_ignores_orientation() {
    let rate = |w: i64, h: i64, kbps: i64| {
        let p = probed(w, h, kbps, 2);
        let (a, _, _) =
            build_args("i", "o", &p, CropMode::NoCrop, "p1", 10000, 8000, VideoEncoder::Svt);
        value_after(&a, "-b:v").unwrap()
    };
    assert_eq!(rate(3840, 2160, 0), "10000k");
    assert_eq!(rate(2160, 3840, 0), "10000k");
    assert_eq!(rate(1920, 1080, 0), "8000k");
    assert_eq!(rate(1920, 1080, 7999), "7999k");
    assert_eq!(rate(1920, 1080, 8000), "8000k");
    assert_eq!(rate(1920, 1080, 90000), "8000k");
}

#[test]
fn the_highest_rate_is_half_as_much_again() {
    for b in [1i64, 2, 3, 3001, 8000, (1 << 52) + 1, (1 << 53) + 1, (1 << 60) + 99, i64::MAX / 2] {
        let p = probed(1920, 1080, b, 2);
        assert!(can_build(&p, i64::MAX / 2, i64::MAX / 2));
        let enc = VideoEncoder::Nvenc("av1_nvenc");
        let (a, _, _) =
            build_args("i", "o", &p, CropMode::NoCrop, "p1", i64::MAX / 2, i64::MAX / 2, enc);
        let want = format!("{}k", (b as f64 * 1.5).round() as i64);
        assert_eq!(value_after(&a, "-maxrate"), Some(want), "{b}");
    }
}

#[test]
fn impossible_numbers_are_told() {
    let mut p = probed(1920, 1080, 0, 2);
    assert!(can_build(&p, 10000, 8000));
    assert!(!can_build(&p, 10000, i64::MAX));
    p.channels = i64::MAX;
    assert!(!can_build(&p, 10000, 8000));
    let q = probed(-1000, i64::MAX, 0, 2);
    assert!(!can_build(&q, 10000, 8000));
}

#[test]
fn a_job_for_a_local_file() {
    let p = probed(1920, 1080, 0, 2);
    let job = build_job(
        Platform::Unix, "/v/film.one.mkv", Some(p), CropMode::NoCrop, "p1", 6000, 4000,
        VideoEncoder::Svt,
    )
    .unwrap();
    assert_eq!(job.name, "film.one");
    assert_eq!(job.args.last().unwrap(), "/v/reencoded/film.one.mp4");
    assert_eq!(value_after(&job.args, "-i"), Some("/v/film.one.mkv".to_string()));
    assert_eq!(job.streams.v_res, "1920x1080");
    assert_eq!(job.target.v_codec, "AV1");
    let none = build_job(
        Platform::Unix, "/v/f.mkv", None, CropMode::NoCrop, "p1", 6000, 4000, VideoEncoder::Svt,
    );
    assert!(none.is_none());
    assert_eq!(job_out_dir(Platform::Unix, "/v/f.mkv"), "/v/reencoded");
}

#[test]
fn ffprobe_lies_beside_ffmpeg() {
    assert_eq!(ffprobe_from_ffmpeg(Platform::Unix, "/usr/bin/ffmpeg"), "/usr/bin/ffprobe");
    assert_eq!(ffprobe_from_ffmpeg(Platform::Unix, "ffmpeg"), "ffprobe");
    assert_eq!(
        ffprobe_from_ffmpeg(Platform::Windows, r"C:\Util\ffmpeg\bin\ffmpeg.exe"),
        r"C:\Util\ffmpeg\bin\ffprobe.exe"
    );
    assert_eq!(ffprobe_from_ffmpeg(Platform::Unix, ""), "./ffprobe");
}
