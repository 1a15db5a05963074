use fast6::collections::{TextMap, TextSet};
use fast6::encoder::{Codec, CropMode, ProbeResult, StreamSummary, VideoEncoder, VideoInfo};
use fast6::path::Platform;
use fast6::proto::{C2D, D2C};
use fast6::server::{
    arg_val, can_plan, codec_from, crop_from, crop_number, display_cmd, display_cmd_of,
    job_outcome, out_name, plan_job, port_or, rates, release_out, reserve_name, reserve_out,
    server_cfg, shim_url, tail_step, test_exit, test_job, typed_port, wants_console, Action, Begin,
    Daemon, Exit, Opened, ServerEnv, Tail, TailStep,
};

fn strings(v: &[&str]) -> Vec<String> {
    v.iter().map(|s| s.to_string()).collect()
}

#[test]
fn maps_and_sets_of_texts() {
    let mut m: TextMap<u8> = TextMap::new();
    m.insert("a", 1);
    m.insert("b", 2);
    m.insert("a", 3);
    assert_eq!((m.len(), m.get("a"), m.get("c")), (2, Some(&3), None));
    assert!(m.contains("b"));
    assert_eq!(m.remove("a"), Some(3));
    assert_eq!(m.remove("a"), None);
    assert_eq!(m.keys(), vec!["b"]);
    m.clear();
    assert_eq!(m.len(), 0);
    let mut s = TextSet::new();
    s.toggle("x");
    assert!(s.contains("x") && s.len() == 1);
    s.toggle("x");
    assert!(!s.contains("x") && s.len() == 0);
    s.insert("y");
    assert!(s.remove("y") && !s.remove("y"));
}

#[test]
fn numbers_and_names_on_the_wire() {
    assert!(crop_from(1) == CropMode::Centered);
    assert!(crop_from(2) == CropMode::OneThird);
    assert!(crop_from(3) == CropMode::NoCrop && crop_from(0) == CropMode::NoCrop);
    for c in [CropMode::Centered, CropMode::OneThird, CropMode::NoCrop] {
        assert!(crop_from(crop_number(c)) == c);
    }
    assert!(codec_from("h264") == Codec::H264);
    assert!(codec_from("HEVC") == Codec::H265 && codec_from("h265") == Codec::H265);
    assert!(codec_from("av1") == Codec::Av1 && codec_from("") == Codec::Av1);
    assert_eq!(rates(0), (10000, 8000));
    assert_eq!(rates(3), (4000, 2000));
    assert_eq!(rates(99), (4000, 2000));
    assert_eq!(shim_url(7879, "j1"), "http://127.0.0.1:7879/j1");
}

#[test]
fn output_names_stay_in_their_folder() {
    let u = Platform::Unix;
    assert_eq!(out_name(u, "film.mkv"), "film.mp4");
    assert_eq!(out_name(u, "/a/b/film.one.mkv"), "film.one.mp4");
    assert_eq!(out_name(u, "../../x.avi"), "x.mp4");
    assert_eq!(out_name(u, ".."), "output.mp4");
    assert_eq!(out_name(u, ""), "output.mp4");
    assert_eq!(out_name(Platform::Windows, r"C:\v\f.mkv"), "f.mp4");
}

#[test]
fn reserved_names_differ() {
    let u = Platform::Unix;
    let mut used = TextSet::new();
    assert_eq!(reserve_name(u, &mut used, "a/film.mkv"), "film.mp4");
    assert_eq!(reserve_name(u, &mut used, "b/film.avi"), "film (2).mp4");
    assert_eq!(reserve_out(u, &mut used, "/tmp/out", "film.mp4"), "/tmp/out/film (3).mp4");
    release_out(u, &mut used, "/tmp/out/film (2).mp4");
    assert!(!used.contains("film (2).mp4"));
    assert_eq!(reserve_name(u, &mut used, "film.mov"), "film (2).mp4");
    assert_eq!(used.len(), 3);
}

#[test]
fn shown_commands_hide_the_paths() {
    let args = strings(&["-y", "-i", "/secret/in.mkv", "-c:v", "x", "/secret/out.mp4"]);
    assert_eq!(display_cmd(&args), "ffmpeg -y -i {source} -c:v x {target}");
    assert_eq!(display_cmd_of("ffmpeg.exe", &strings(&["-i", "a"])), "ffmpeg.exe -i {source}");
    assert_eq!(display_cmd(&strings(&[])), "ffmpeg");
}

fn submit(id: &str, size: u64, local: Option<&str>) -> C2D {
    C2D::Submit {
        job_id: id.to_string(),
        filename: "f.mkv".to_string(),
        size,
        crop: 2,
        codec: "h265".to_string(),
        preset: "p3".to_string(),
        bitrate_idx: 1,
        local_path: local.map(String::from),
    }
}

fn state_of(a: Action) -> (String, String, String) {
    match a {
        Action::Reply { msg: D2C::State { job_id, state, detail } } => (job_id, state, detail),
        _ => panic!(),
    }
}

#[test]
fn jobs_are_submitted_and_run_in_order() {
    let mut d = Daemon::new("t");
    for id in ["a", "b", "c"] {
        let r = state_of(d.handle_c2d(4, submit(id, 9, None), Opened::NotAsked));
        assert_eq!(r, (id.to_string(), "queued".to_string(), String::new()));
    }
    assert_eq!((d.queue_count(), d.running_count()), (3, 0));
    assert_eq!(d.next_job(), Some("a".to_string()));
    assert_eq!(d.next_job(), Some("b".to_string()));
    assert_eq!(d.next_job(), None);
    d.job_done("a");
    assert_eq!(d.next_job(), Some("c".to_string()));
    let j = d.job("a").unwrap();
    assert_eq!((j.client, j.size, j.local, j.bitrate_idx), (4, 9, false, 1));
    assert!(j.crop == CropMode::OneThird && j.codec == Codec::H265);
    assert!(d.job("zz").is_none());
}

#[test]
fn local_files_are_opened_first() {
    let mut d = Daemon::new("t");
    let why = "no such file".to_string();
    let r = state_of(d.handle_c2d(1, submit("x", 9, Some("/f")), Opened::Failed { why }));
    assert_eq!(r.1, "failed");
    assert_eq!(r.2, "couldn't open local file: no such file");
    assert!(d.job("x").is_none() && d.queue_count() == 0);
    d.handle_c2d(1, submit("y", 9, Some("/f")), Opened::Size { len: 77 });
    let j = d.job("y").unwrap();
    assert_eq!((j.local, j.size), (true, 77));
}

#[test]
fn cancelled_jobs_do_not_start() {
    let mut d = Daemon::new("t");
    d.handle_c2d(1, submit("a", 1, None), Opened::NotAsked);
    d.handle_c2d(1, submit("b", 1, None), Opened::NotAsked);
    match d.handle_c2d(1, C2D::Cancel { job_id: "a".to_string() }, Opened::NotAsked) {
        Action::Feed { job_id, keys } => assert_eq!((job_id.as_str(), keys.as_str()), ("a", "q")),
        _ => panic!(),
    }
    assert!(d.begin("a") == Begin::Cancelled);
    assert!(d.begin("b") == Begin::Probe);
    assert!(d.begin("c") == Begin::Missing);
    assert_eq!(d.next_job(), Some("b".to_string()));
    assert_eq!(d.next_job(), None);
}

#[test]
fn keys_and_widths() {
    let mut d = Daemon::new("t");
    d.handle_c2d(1, submit("a", 1, None), Opened::NotAsked);
    let key = |id: &str| C2D::Key { job_id: id.to_string(), key: "+".to_string() };
    assert!(matches!(d.handle_c2d(1, key("a"), Opened::NotAsked), Action::Feed { .. }));
    assert!(matches!(d.handle_c2d(1, key("b"), Opened::NotAsked), Action::Nothing));
    d.handle_c2d(1, submit("b", 1, None), Opened::NotAsked);
    d.handle_c2d(1, submit("c", 1, None), Opened::NotAsked);
    assert!(matches!(d.handle_c2d(1, C2D::SetParallel { n: 0 }, Opened::NotAsked), Action::Nothing));
    assert!(d.next_job().is_some());
    assert!(d.next_job().is_none());
    d.handle_c2d(1, C2D::SetParallel { n: 900 }, Opened::NotAsked);
    assert!(d.next_job().is_some() && d.next_job().is_some());
    let hello = C2D::Hello { token: String::new(), name: String::new() };
    assert!(matches!(d.handle_c2d(1, hello, Opened::NotAsked), Action::Nothing));
}

#[test]
fn states_are_told_to_the_client() {
    let mut d = Daemon::new("t");
    d.handle_c2d(5, submit("a", 1, None), Opened::NotAsked);
    match d.set_state("a", "probing", "d") {
        Some((5, D2C::State { job_id, state, detail })) => {
            assert_eq!((job_id.as_str(), state.as_str(), detail.as_str()), ("a", "probing", "d"));
        }
        _ => panic!(),
    }
    assert_eq!(d.job("a").unwrap().state, "probing");
    assert!(d.set_state("zz", "x", "").is_none());
    d.inject_test(Platform::Unix, "/v/try.mkv", 12, "h264", "p2", 3);
    assert!(d.set_state("test", "done", "").is_none());
    let j = d.job("test").unwrap();
    assert_eq!((j.filename.as_str(), j.size, j.local, j.client), ("try.mkv", 12, true, 0));
    assert!(j.codec == Codec::H264 && j.crop == CropMode::NoCrop && j.state == "done");
    assert_eq!(d.next_job(), Some("a".to_string()));
    assert_eq!(d.next_job(), Some("test".to_string()));
}

fn probe() -> ProbeResult {
    ProbeResult {
        inf: VideoInfo {
            w: 1920,
            h: 1080,
            hdr: false,
            ten_bit: false,
            trc: String::new(),
            primaries: String::new(),
            space: String::new(),
            range: String::new(),
        },
        streams: StreamSummary::blank(),
        src_kbps: 0,
        channels: 2,
    }
}

#[test]
fn streaming_only_adds_to_the_command() {
    let mut d = Daemon::new("t");
    d.handle_c2d(5, submit("a", 1, None), Opened::NotAsked);
    let job = d.job("a").unwrap();
    assert!(can_plan(&probe(), job.bitrate_idx));
    let far = plan_job("http://u", "/o/f.mp4", &probe(), job, VideoEncoder::Svt, true);
    let near = plan_job("http://u", "/o/f.mp4", &probe(), job, VideoEncoder::Svt, false);
    assert!(far.remote && !near.remote);
    assert_eq!(far.args.len(), near.args.len() + 2);
    let n = near.args.len();
    assert_eq!(far.args[..n - 1], near.args[..n - 1]);
    assert_eq!(
        far.args[n - 1..],
        strings(&["-movflags", "+frag_keyframe+empty_moov+default_base_moof", "/o/f.mp4"])
    );
    assert!(near.cmd.starts_with("ffmpeg -hide_banner") && near.cmd.ends_with("{target}"));
    assert!(near.info.starts_with("1920x1080 -> 6000k"));
    assert_eq!(near.target.v_res, "1920x804");
}

#[test]
fn outcomes_of_jobs() {
    let o = job_outcome(&Exit::Code { code: 0 }, false, "/o");
    assert_eq!((o.state.as_str(), o.detail.as_str(), o.ok), ("done", "/o", true));
    let o = job_outcome(&Exit::Code { code: 0 }, true, "/o");
    assert_eq!((o.state.as_str(), o.detail.as_str(), o.ok), ("cancelled", "/o", false));
    let o = job_outcome(&Exit::Code { code: 187 }, false, "/o");
    assert_eq!((o.state.as_str(), o.detail.as_str(), o.ok), ("failed", "ffmpeg exit 187", false));
    let o = job_outcome(&Exit::Killed, false, "/o");
    assert_eq!((o.state.as_str(), o.detail.as_str()), ("failed", "ffmpeg exit -1"));
    let o = job_outcome(&Exit::Lost { why: "gone".to_string() }, false, "/o");
    assert_eq!((o.state.as_str(), o.detail.as_str()), ("failed", "gone"));
    assert_eq!((test_exit("done"), test_exit("failed"), test_exit("encoding")), (Some(0), Some(1), None));
}

#[test]
fn results_are_read_to_their_end() {
    assert!(tail_step(false, Tail::Bytes) == TailStep::Send);
    assert!(tail_step(true, Tail::Bytes) == TailStep::Send);
    assert!(tail_step(false, Tail::Nothing) == TailStep::Wait);
    assert!(tail_step(true, Tail::Nothing) == TailStep::Stop);
    assert!(tail_step(false, Tail::Error) == TailStep::Stop);
}

#[test]
fn arguments_and_ports() {
    let args = strings(&["fast6d", "--port", "99", "--out"]);
    assert_eq!(arg_val(&args, "--port"), Some("99".to_string()));
    assert_eq!(arg_val(&args, "--out"), None);
    assert_eq!(arg_val(&args, "--none"), None);
    assert_eq!(port_or(&Some("8080".to_string()), 1), 8080);
    assert_eq!(port_or(&Some("65536".to_string()), 1), 1);
    assert_eq!(port_or(&Some(" 1".to_string()), 5), 5);
    assert_eq!(port_or(&None, 7), 7);
    assert_eq!((typed_port(" 9000 "), typed_port("x")), (9000, 7878));
    assert!(wants_console(&strings(&["d", "--headless"])));
    assert!(wants_console(&strings(&["d", "--test", "f"])));
    assert!(!wants_console(&strings(&["d", "--test"])));
}

#[test]
fn the_daemon_is_set_up() {
    let env = ServerEnv {
        ffmpeg: Some("/e/ffmpeg".to_string()),
        token: None,
        port: Some("1234".to_string()),
        shim_port: Some("bad".to_string()),
        out: None,
    };
    let c = server_cfg(&strings(&["d", "--port", "4321"]), &env, "/tmp/fast6d");
    assert_eq!((c.ffmpeg.as_str(), c.token.as_str()), ("/e/ffmpeg", "changeme"));
    assert_eq!((c.port, c.shim_port, c.out_dir.as_str()), (4321, 7879, "/tmp/fast6d"));
    let none = ServerEnv { ffmpeg: None, token: Some("k".to_string()), port: None, shim_port: None, out: Some("/o".to_string()) };
    let c = server_cfg(&strings(&["d"]), &none, "/tmp/fast6d");
    assert_eq!(c.ffmpeg, r"C:\Util\ffmpeg\bin\ffmpeg.exe");
    assert_eq!((c.token.as_str(), c.port, c.out_dir.as_str()), ("k", 7878, "/o"));
    let t = test_job(&strings(&["d", "--test", "f.mkv", "--bitrate", "x"])).unwrap();
    assert_eq!((t.file.as_str(), t.codec.as_str(), t.preset.as_str(), t.bitrate_idx), ("f.mkv", "AV1", "p1", 2));
    let t = test_job(&strings(&["d", "--test", "f", "--codec", "h264", "--preset", "p5", "--bitrate", "0"])).unwrap();
    assert_eq!((t.codec.as_str(), t.preset.as_str(), t.bitrate_idx), ("h264", "p5", 0));
    assert!(test_job(&strings(&["d"])).is_none());
}
