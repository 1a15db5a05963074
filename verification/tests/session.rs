use fast6::collections::TextMap;
use fast6::decimal::Decimal;
use fast6::encoder::{BuiltJob, Codec, CropMode, StreamSummary};
use fast6::path::Platform;
use fast6::progress::parse_progress;
use fast6::proto::{SummaryDto, C2D, D2C};
use fast6::session::{client_out_path, ensure_slot, JobSettings, Reaction, Session};
use fast6::slot::{Slot, SlotState, SLOTS};

fn state(id: &str, st: &str, detail: &str) -> D2C {
    D2C::State { job_id: id.to_string(), state: st.to_string(), detail: detail.to_string() }
}

fn strings(v: &[&str]) -> Vec<String> {
    v.iter().map(|s| s.to_string()).collect()
}

fn settings() -> JobSettings {
    JobSettings {
        crop: CropMode::Centered,
        codec: Codec::H265,
        preset: "p2".to_string(),
        bitrate_idx: 1,
    }
}

#[test]
fn results_go_beside_their_source() {
    assert_eq!(client_out_path(Platform::Unix, "/v/film.one.mkv"), "/v/reencoded/film.one.mp4");
    assert_eq!(client_out_path(Platform::Windows, r"D:\v\a.mp4"), r"D:\v\reencoded\a.mp4");
    assert_eq!(client_out_path(Platform::Unix, "a.mp4"), "reencoded/a.mp4");
    assert_eq!(client_out_path(Platform::Unix, "film.mkv"), "reencoded/film.mp4");
    assert_eq!(client_out_path(Platform::Windows, r"C:\v\f.mkv"), r"C:\v\reencoded\f.mp4");
}

#[test]
fn slots_are_given_out_once() {
    let mut m: TextMap<usize> = TextMap::new();
    for i in 0..SLOTS {
        assert_eq!(ensure_slot(&mut m, &format!("j{i}")), Some(i));
    }
    assert_eq!(ensure_slot(&mut m, "j2"), Some(2));
    assert_eq!(ensure_slot(&mut m, "more"), None);
    m.remove("j1");
    assert_eq!(ensure_slot(&mut m, "more"), Some(1));
}

#[test]
fn slots_are_shown_and_reset() {
    let mut s = Slot::new();
    assert_eq!(s.state.label(), "idle");
    assert_eq!(SlotState::Running.label(), "running");
    assert_eq!(SlotState::Fail(-2).label(), "FAIL -2");
    s.name = "x".to_string();
    s.state = SlotState::Running;
    s.reset();
    assert!(s.name.is_empty() && s.state == SlotState::Idle && s.job_id.is_none());
}

#[test]
fn files_are_submitted() {
    let mut s = Session::new(Platform::Unix);
    let msgs = s.submit(&strings(&["/v/a.mkv", "/v/b.mkv"]), &vec![10, 20], 7, 0, &settings());
    assert!(matches!(msgs[0], C2D::SetParallel { n: 1 }));
    match &msgs[2] {
        C2D::Submit { job_id, filename, size, crop, codec, preset, bitrate_idx, local_path } => {
            assert_eq!((job_id.as_str(), filename.as_str(), *size, *crop), ("j8", "b.mkv", 20, 1));
            assert_eq!((codec.as_str(), preset.as_str(), *bitrate_idx), ("H265", "p2", 1));
            assert!(local_path.is_none());
        }
        _ => panic!(),
    }
    assert!(s.is_running());
    assert_eq!(s.job_count(), 2);
    let mut ids = s.job_ids();
    ids.sort();
    assert_eq!(ids, vec!["j7", "j8"]);
}

#[test]
fn blocks_are_read_from_the_right_file() {
    let mut s = Session::new(Platform::Unix);
    s.submit(&strings(&["/v/a.mkv"]), &vec![10], 0, 1, &settings());
    let ask = |id: &str| D2C::ReadBlock { req_id: 4, job_id: id.to_string(), offset: 5, len: 6 };
    match s.on_message(ask("j0")) {
        Reaction::SendBlock { req_id, file, offset, len } => {
            assert_eq!((req_id, file.as_deref(), offset, len), (4, Some("/v/a.mkv"), 5, 6));
        }
        _ => panic!(),
    }
    match s.on_message(ask("zz")) {
        Reaction::SendBlock { file, .. } => assert!(file.is_none()),
        _ => panic!(),
    }
}

#[test]
fn states_move_jobs_through_the_slots() {
    let mut s = Session::new(Platform::Unix);
    s.submit(&strings(&["/v/a.mkv", "/v/b.mkv"]), &vec![10, 20], 0, 2, &settings());
    s.on_message(state("j0", "queued", ""));
    assert!(s.slot(0).state == SlotState::Idle);
    s.on_message(state("j1", "probing", ""));
    assert!(s.slot(0).state == SlotState::Running);
    assert_eq!((s.slot(0).name.as_str(), s.slot(0).info.as_str()), ("b.mkv", "probing…"));
    assert_eq!(s.slot(0).job_id.as_deref(), Some("j1"));
    s.on_message(state("j1", "encoding", "details"));
    assert_eq!(s.slot(0).info, "details");
    s.on_message(state("j0", "encoding", "x"));
    assert_eq!(s.slot(1).name, "a.mkv");
    assert_eq!(s.running_count(), 2);
    s.on_message(state("j1", "done", "/o"));
    assert!(s.slot(0).state == SlotState::Idle && s.slot(1).state == SlotState::Running);
    assert_eq!(s.job_count(), 1);
    s.on_message(state("j0", "failed", "ffmpeg exit 1"));
    assert!(s.slot(1).state == SlotState::Fail(-1));
    assert_eq!((s.slot(1).info.as_str(), s.job_count()), ("ffmpeg exit 1", 0));
}

fn dto(codec: &str) -> SummaryDto {
    let mut d = SummaryDto::of_summary(&StreamSummary::blank());
    d.v_codec = codec.to_string();
    d
}

#[test]
fn streams_and_progress_are_shown() {
    let mut s = Session::new(Platform::Unix);
    s.submit(&strings(&["/v/a.mkv"]), &vec![10], 0, 2, &settings());
    s.on_message(state("j0", "encoding", ""));
    s.on_message(D2C::Streams {
        job_id: "j0".to_string(),
        source: dto("HEVC"),
        target: dto("AV1"),
        cmd: "ffmpeg x".to_string(),
    });
    let slot = s.slot(0);
    assert_eq!((slot.streams.v_codec.as_str(), slot.target.v_codec.as_str()), ("HEVC", "AV1"));
    assert_eq!(slot.cmdline, "ffmpeg x");
    let progress = |id: &str| D2C::Progress {
        job_id: id.to_string(),
        frame: "5".to_string(),
        fps: "1".to_string(),
        q: "2".to_string(),
        size: "3 MiB".to_string(),
        time: "0:00:04".to_string(),
        bitrate: "6 kbps".to_string(),
        speed: "1.25x".to_string(),
        time_sec: Decimal::one(),
        eta: "—".to_string(),
        percent: Decimal::zero(),
    };
    s.on_message(progress("zz"));
    assert!(s.slot(0).progress.is_none());
    s.on_message(progress("j0"));
    let p = s.slot(0).progress.as_ref().unwrap();
    assert_eq!((p.frame.as_str(), p.speed_val.spell().parse::<f64>().unwrap()), ("5", 1.25));
}

#[test]
fn results_are_written_where_they_belong() {
    let mut s = Session::new(Platform::Unix);
    s.submit(&strings(&["/v/a.mkv"]), &vec![10], 0, 2, &settings());
    match s.on_message(D2C::ResultBegin { job_id: "j0".to_string() }) {
        Reaction::OpenResult { job_id, dir, path } => {
            assert_eq!((job_id.as_str(), dir.as_deref()), ("j0", Some("/v/reencoded")));
            assert_eq!(path, "/v/reencoded/a.mp4");
        }
        _ => panic!(),
    }
    assert!(matches!(s.on_message(D2C::ResultBegin { job_id: "q".to_string() }), Reaction::Nothing));
    match s.on_message(D2C::ResultEnd { job_id: "j0".to_string(), ok: true }) {
        Reaction::CloseResult { job_id } => assert_eq!(job_id, "j0"),
        _ => panic!(),
    }
    assert!(matches!(s.on_message(D2C::Welcome { msg: String::new() }), Reaction::Nothing));
}

fn built(name: &str) -> BuiltJob {
    BuiltJob {
        name: name.to_string(),
        info: "info".to_string(),
        args: strings(&["-i", "in", "out"]),
        streams: StreamSummary::blank(),
        target: StreamSummary::blank(),
    }
}

#[test]
fn local_files_run_in_the_free_slots() {
    let mut s = Session::new(Platform::Unix);
    s.begin_local(&strings(&["/a", "/b", "/c"]), 2);
    assert_eq!((s.queue_count(), s.is_running(), s.is_over()), (3, true, false));
    let (i, f) = s.dispatch_next().unwrap();
    assert_eq!((i, f.as_str()), (0, "/a"));
    assert_eq!(s.prepare(i, "ffmpeg", built("a")), strings(&["-i", "in", "out"]));
    assert_eq!(s.slot(0).cmdline, "ffmpeg -i {source} {target}");
    s.launched(i, 77);
    assert_eq!(s.slot(0).pid, Some(77));
    let (i, _) = s.dispatch_next().unwrap();
    assert_eq!(i, 1);
    s.prepare(i, "ffmpeg", built("b"));
    s.launched(i, 78);
    assert!(s.dispatch_next().is_none());
    s.set_target(3);
    let (i, f) = s.dispatch_next().unwrap();
    assert_eq!((i, f.as_str()), (2, "/c"));
    s.unreadable(i, &f);
    assert!(s.slot(2).state == SlotState::Fail(-2));
    assert_eq!((s.slot(2).name.as_str(), s.slot(2).info.as_str()), ("c", "couldn't read (ffprobe)"));
    s.reap(0, 0);
    assert!(s.slot(0).state == SlotState::Idle && s.slot(0).name.is_empty());
    s.reap(1, 9);
    assert!(s.slot(1).state == SlotState::Fail(9) && s.slot(1).pid.is_none());
    assert!(s.is_over());
}

#[test]
fn launches_can_fail() {
    let mut s = Session::new(Platform::Unix);
    s.begin_local(&strings(&["/a"]), 1);
    let (i, _) = s.dispatch_next().unwrap();
    s.prepare(i, "ffmpeg", built("a"));
    s.launch_failed(i, "no such file");
    assert!(matches!(s.slot(i).state, SlotState::Fail(_)));
    assert!(s.is_over());
}

#[test]
fn cancelling_empties_the_queue() {
    let mut s = Session::new(Platform::Unix);
    s.begin_local(&strings(&["/a", "/b"]), 1);
    let (i, _) = s.dispatch_next().unwrap();
    s.prepare(i, "ffmpeg", built("a"));
    s.launched(i, 1);
    assert!(s.stop_step().is_empty());
    s.request_cancel();
    assert_eq!(s.stop_step(), vec![0]);
    assert_eq!(s.queue_count(), 0);
    assert!(!s.is_over());
    s.reap(0, 0);
    assert!(s.is_over());
}

#[test]
fn quitting_tells_the_running_slots() {
    let mut s = Session::new(Platform::Unix);
    s.begin_local(&strings(&["/a", "/b"]), 2);
    for _ in 0..2 {
        let (i, _) = s.dispatch_next().unwrap();
        s.prepare(i, "ffmpeg", built("x"));
        s.launched(i, 1);
    }
    s.reap(0, 1);
    assert_eq!(s.send_quit_all(), vec![1]);
    assert_eq!(s.stop_step(), vec![1]);
    s.show_output(1, "log".to_string(), parse_progress("frame=3 speed=1x"));
    assert_eq!(s.slot(1).output, "log");
    assert_eq!(s.slot(1).progress.as_ref().unwrap().frame, "3");
}

#[test]
fn other_slots_are_left_alone() {
    let mut s = Session::new(Platform::Unix);
    s.submit(&strings(&["/v/a", "/v/b"]), &vec![1, 2], 0, 2, &settings());
    s.on_message(state("j0", "encoding", "one"));
    s.on_message(state("j1", "encoding", "two"));
    s.on_message(state("j1", "encoding", "three"));
    assert_eq!((s.slot(0).info.as_str(), s.slot(1).info.as_str()), ("one", "three"));
    s.clear_jobs();
    assert_eq!((s.job_count(), s.running_count()), (0, 0));
}
