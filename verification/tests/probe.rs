use fast6::encoder::StreamSummary;
use fast6::probe::{
    apply_stream, channels_probe_args, container_rate_probe_args, ffprobe_num, has_picture,
    needs_container_rate, probe_all, probe_bitrate, probe_channels, probe_streams, probe_video,
    stream_rate_probe_args, streams_probe_args, video_probe_args,
};

fn out(s: &str) -> Option<Vec<u8>> {
    Some(s.as_bytes().to_vec())
}

#[test]
fn the_video_stream_is_read() {
    let v = probe_video(&out("width=1920\r\nheight = 1080\npix_fmt=yuv420p10le\nnonsense\n"));
    assert_eq!((v.w, v.h, v.ten_bit, v.hdr), (1920, 1080, true, false));
    assert_eq!(v.range, "tv");
    let v = probe_video(&out("width=x\nheight=\nbits_per_raw_sample=8\npix_fmt=p010le\n"));
    assert_eq!((v.w, v.h, v.ten_bit), (0, 0, false));
    let v = probe_video(&out("bits_per_raw_sample=12\n"));
    assert!(v.ten_bit);
    let v = probe_video(&None);
    assert_eq!((v.w, v.h, v.range.as_str()), (0, 0, "tv"));
}

#[test]
fn deep_formats_are_seen() {
    let deep = |f: &str| {
        let v = probe_video(&out(&format!("width=1920\nheight=1080\npix_fmt={f}\n")));
        assert_eq!((v.w, v.h), (1920, 1080));
        v.ten_bit
    };
    for f in [
        "yuv420p10le", "p010le", "p012le", "p016le", "p210le", "p412be", "gray10le", "gray16be",
        "x2rgb10le", "yuv422p9le", "yuv444p14be", "rgb48le", "gbrap12le", "xyz12le", "nv20le",
        "yuv420p10",
    ] {
        assert!(deep(f), "{f}");
    }
    for f in ["yuv420p", "nv12", "yuvj444p", "rgb24", "gray", "rgb565le", "bgr555be", "rgb444le", "pal8", ""] {
        assert!(!deep(f), "{f}");
    }
    assert!(probe_video(&out("bits_per_raw_sample=9\n")).ten_bit);
}

#[test]
fn hdr_gets_its_colours() {
    let v = probe_video(&out("color_transfer=smpte2084\ncolor_primaries=unknown\ncolor_range=\n"));
    assert!(v.hdr);
    assert_eq!((v.primaries.as_str(), v.space.as_str(), v.range.as_str()), ("bt2020", "bt2020nc", "tv"));
    let v = probe_video(&out("color_transfer=arib-std-b67\ncolor_primaries=bt709\ncolor_space=x\n"));
    assert!(v.hdr);
    assert_eq!((v.primaries.as_str(), v.space.as_str()), ("bt709", "x"));
    let v = probe_video(&out("color_transfer=bt709\ncolor_primaries=unknown\n"));
    assert!(!v.hdr);
    assert_eq!(v.primaries, "unknown");
}

#[test]
fn channels_and_rates() {
    assert_eq!(probe_channels(&out("6\n2\n")), 6);
    assert_eq!(probe_channels(&out("0\n")), 2);
    assert_eq!(probe_channels(&out("N/A\n")), 2);
    assert_eq!(probe_channels(&out("")), 2);
    assert_eq!(probe_channels(&None), 2);
    assert_eq!(ffprobe_num(&out(" 42 \n")), Some(42));
    assert_eq!(ffprobe_num(&out("-1\n")), None);
    assert_eq!(ffprobe_num(&out("\n5\n")), None);
    assert_eq!(probe_bitrate(&out("5999999\n"), &out("1\n")), 5999);
    assert_eq!(probe_bitrate(&out("N/A\n"), &out("7000000\n")), 7000);
    assert_eq!(probe_bitrate(&None, &None), 0);
}

const STREAMS: &str = "[STREAM]\nindex=0\ncodec_name=hevc\ncodec_type=video\nwidth=1920\n\
height=1080\npix_fmt=yuv420p10le\nr_frame_rate=24000/1001\nbit_rate=12345678\n[/STREAM]\n\
[STREAM]\ncodec_name=eac3\ncodec_type=audio\nchannels=6\nchannel_layout=5.1(side)\n\
sample_rate=48000\nbit_rate=640000\n[/STREAM]\n[STREAM]\ncodec_type=video\ncodec_name=png\n\
[/STREAM]\n[FORMAT]\nduration=3661.5\n[/FORMAT]\n";

#[test]
fn probes_that_do_not_count() {
    let video = out("width=1920\nheight=1080\npix_fmt=yuv420p\n");
    assert!(has_picture(&video));
    for none in [None, out(""), out("width=1920\n"), out("width=0\nheight=1080\n")] {
        assert!(!has_picture(&none));
        assert!(probe_all(&none, &out("5000"), &out("6000"), &out("6"), &out(STREAMS)).is_none());
    }
    assert!(!needs_container_rate(&out("5000000\n")));
    assert!(needs_container_rate(&out("N/A\n")) && needs_container_rate(&None));
    let p = probe_all(&video, &out("5000000\n"), &out("9000000\n"), &None, &None).unwrap();
    let q = probe_all(&video, &out("5000000\n"), &None, &None, &None).unwrap();
    assert_eq!((p.src_kbps, q.src_kbps), (5000, 5000));
    assert_eq!((p.streams.v_bitrate.as_str(), q.streams.v_bitrate.as_str()), ("5000 kbps", "5000 kbps"));
}

#[test]
fn streams_are_summed_up() {
    let s = probe_streams(&out(STREAMS));
    assert_eq!(s.v_codec, "HEVC");
    assert_eq!(s.v_res, "1920x1080");
    assert_eq!(s.v_fps, "23.976");
    assert_eq!(s.v_bits, "10-bit");
    assert_eq!(s.v_fmt, "yuv420p10le");
    assert_eq!(s.v_bitrate, "12346 kbps");
    assert_eq!(s.a_codec, "EAC3");
    assert_eq!(s.a_layout, "5.1(side) (6 ch)");
    assert_eq!(s.a_rate, "48000 Hz");
    assert_eq!(s.a_bitrate, "640 kbps");
    assert_eq!(s.dur_str, "1:01:01");
    assert_eq!(s.duration.spell().parse::<f64>().unwrap(), 3661.5);
    let s = probe_streams(&None);
    assert_eq!((s.dur_str.as_str(), s.v_codec.as_str()), ("", ""));
    let s = probe_streams(&out(""));
    assert_eq!(s.dur_str, "—");
}

#[test]
fn one_section_is_applied() {
    let mut s = StreamSummary::blank();
    let pair = |k: &str, v: &str| (k.to_string(), v.to_string());
    apply_stream(
        &mut s,
        &vec![pair("codec_type", "audio"), pair("codec_name", "aac"), pair("channels", "2"),
              pair("channels", "9"), pair("channel_layout", "unknown")],
    );
    assert_eq!(s.a_codec, "AAC");
    assert_eq!(s.a_layout, "2 ch");
    assert_eq!((s.a_rate.as_str(), s.a_bitrate.as_str()), ("", ""));
    apply_stream(&mut s, &vec![pair("codec_type", "audio"), pair("codec_name", "mp3")]);
    assert_eq!(s.a_codec, "AAC");
    let mut t = StreamSummary::blank();
    apply_stream(&mut t, &vec![pair("codec_type", "video"), pair("codec_name", "straße")]);
    assert_eq!((t.v_codec.as_str(), t.v_res.as_str()), ("STRASSE", "x"));
    apply_stream(&mut s, &vec![pair("codec_type", "data")]);
    assert_eq!(s.v_codec, "");
}

#[test]
fn everything_is_probed() {
    let p = probe_all(
        &out("width=1280\nheight=720\n"),
        &None,
        &out("4000999\n"),
        &out("2\n"),
        &out("[STREAM]\ncodec_type=video\ncodec_name=h264\n[/STREAM]\n"),
    )
    .unwrap();
    assert_eq!((p.inf.w, p.inf.h, p.src_kbps, p.channels), (1280, 720, 4000, 2));
    assert_eq!(p.streams.v_bitrate, "4000 kbps");
    assert!(probe_all(&out("width=0\nheight=720\n"), &None, &None, &None, &None).is_none());
    assert!(probe_all(&out("width=10\nheight=-1\n"), &None, &None, &None, &None).is_none());
    assert!(probe_all(&None, &None, &None, &None, &None).is_none());
    let p = probe_all(&out("width=1\nheight=1\n"), &None, &None, &None, &out(STREAMS)).unwrap();
    assert_eq!((p.src_kbps, p.streams.v_bitrate.as_str()), (0, "12346 kbps"));
}

#[test]
fn probe_commands() {
    assert_eq!(
        video_probe_args("f.mkv"),
        vec![
            "-v", "error", "-select_streams", "v:0", "-show_entries",
            "stream=width,height,pix_fmt,bits_per_raw_sample,color_space,color_transfer,color_primaries,color_range",
            "-of", "default=nk=0:nw=1", "-i", "f.mkv",
        ]
    );
    assert_eq!(
        channels_probe_args("f"),
        vec!["-v", "error", "-select_streams", "a:0", "-show_entries", "stream=channels", "-of",
             "default=nk=1:nw=1", "-i", "f"]
    );
    assert_eq!(
        stream_rate_probe_args("f"),
        vec!["-v", "error", "-select_streams", "v:0", "-show_entries", "stream=bit_rate", "-of",
             "default=nk=1:nw=1", "-i", "f"]
    );
    assert_eq!(
        container_rate_probe_args("f"),
        vec!["-v", "error", "-show_entries", "format=bit_rate", "-of", "default=nk=1:nw=1", "-i", "f"]
    );
    assert_eq!(
        streams_probe_args("f"),
        vec!["-v", "error", "-show_entries",
             "format=duration:stream=index,codec_type,codec_name,width,height,pix_fmt,r_frame_rate,sample_rate,channels,channel_layout,bit_rate",
             "-of", "default=noprint_wrappers=0:nokey=0", "-i", "f"]
    );
}
