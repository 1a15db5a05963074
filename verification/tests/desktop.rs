use fast6::app::{App, Effect, Mode};
use fast6::decimal::parse_decimal;
use fast6::encoder::StreamSummary;
use fast6::gui::{
    audio_facts, card, closing_notice, progress_facts, quit_question, slot_done, video_facts,
};
use fast6::path::Platform;
use fast6::progress::parse_progress;
use fast6::proto::D2C;
use fast6::session::Session;
use fast6::slot::{Slot, SlotState};
use fast6::start::Kept;
use fast6::tray::{
    counts_line, fatal_file, fatal_line, icon_pixels, keep_place, kept_place, Closing,
    ServerWindow, ICON_SIDE,
};
use fast6::ui::Tone;

fn client() -> App {
    let kept = Kept { mode: None, ffmpeg: None, daemon_addr: None, token: None, codec: None };
    App::new(Platform::Windows, "C:\\v", r"C:\Util\ffmpeg\bin\ffmpeg.exe", 0, kept)
}

fn busy() -> Session {
    let mut s = Session::new(Platform::Windows);
    s.on_message(D2C::State {
        job_id: "a".to_string(),
        state: "encoding".to_string(),
        detail: "info".to_string(),
    });
    s
}

fn saved(e: &[Effect]) -> usize {
    e.iter().filter(|x| matches!(x, Effect::Save { .. })).count()
}

#[test]
fn a_window_waits_for_its_files() {
    let mut a = client();
    let idle = Session::new(Platform::Windows);
    let (e, closes) = a.window_close(&idle);
    assert!(closes && saved(&e) == 5 && !a.confirm_exit);
    let (e, closes) = a.window_close(&busy());
    assert!(!closes && saved(&e) == 5 && a.confirm_exit);
    a.confirm_exit = false;
    a.closing = true;
    let (_, closes) = a.window_close(&idle);
    assert!(!closes && !a.confirm_exit);
    a.should_quit = true;
    let (e, closes) = a.window_close(&busy());
    assert!(closes && e.is_empty());
}

#[test]
fn what_waits_is_counted() {
    let mut a = client();
    let mut s = Session::new(Platform::Windows);
    s.begin_local(&vec!["x".to_string(), "y".to_string()], 2);
    assert_eq!(a.pending(&s), 2);
    a.mode = Mode::Daemon;
    assert_eq!(a.pending(&s), 0);
}

#[test]
fn questions_and_notices() {
    assert_eq!(
        quit_question(2),
        "There are 2 ffmpeg process(es) running. If you quit they'll be closed cleanly (Q) — it may take a few seconds."
    );
    assert_eq!(closing_notice(1), "Waiting for 1 process(es) to close (Q, clean shutdown)…");
}

#[test]
fn facts_of_a_slot() {
    let mut m = StreamSummary::blank();
    m.v_codec = "AV1".to_string();
    m.a_layout = "2 ch".to_string();
    let v = video_facts(&m, Tone::Amber);
    assert_eq!(v.len(), 6);
    assert_eq!((v[0].key.as_str(), v[0].value.as_str()), ("Codec:", "AV1"));
    assert_eq!((v[1].key.as_str(), v[1].value.as_str()), ("Res:", "—"));
    assert!(v[4].tone == Tone::Amber && v[0].tone == Tone::Video);
    let a = audio_facts(&m, Tone::Audio);
    assert_eq!((a[1].key.as_str(), a[1].value.as_str(), a.len()), ("Channels:", "2 ch", 4));
    let mut s = Slot::new();
    let p = progress_facts(&s);
    assert_eq!((p[4].key.as_str(), p[4].value.as_str()), ("Time:", "— / "));
    assert_eq!((p[7].key.as_str(), p[7].value.as_str()), ("ETA:", "—"));
    s.progress = parse_progress("frame=1 time=00:00:10.00 speed=2x");
    s.streams.dur_str = "0:00:30".to_string();
    let secs: Vec<char> = "30".chars().collect();
    s.streams.duration = parse_decimal(&secs).unwrap();
    let p = progress_facts(&s);
    assert_eq!(p[4].value, "0:00:10 / 0:00:30");
    assert_eq!(p[7].value, "0:00:10");
    assert_eq!(slot_done(&s).spell().parse::<f64>().unwrap(), 10.0 / 30.0);
    assert_eq!(slot_done(&Slot::new()).spell().parse::<f64>().unwrap(), 0.0);
}

#[test]
fn cards_of_slots() {
    let mut s = Slot::new();
    let c = card(&s);
    assert!(!c.named && c.name == "idle" && c.note.is_none() && c.problem.is_none() && !c.active);
    s.name = "film".to_string();
    s.info = "x".to_string();
    s.cmdline = "ffmpeg".to_string();
    s.state = SlotState::Fail(1);
    s.output = "é".repeat(2500);
    let c = card(&s);
    assert_eq!((c.name.as_str(), c.note.as_deref()), ("film", Some("FAIL 1")));
    assert_eq!((c.output.as_deref(), c.command.as_deref()), (Some("Output: x"), Some("ffmpeg")));
    assert_eq!(c.problem.unwrap().chars().count(), 2000);
    s.state = SlotState::Running;
    let c = card(&s);
    assert!(c.active && c.problem.is_none() && c.note.as_deref() == Some("running"));
}

#[test]
fn the_server_window_starts_and_stops() {
    let mut w = ServerWindow::new("ff", &None);
    assert_eq!((w.port.as_str(), w.token.as_str(), w.status.as_str()), ("7878", "changeme", "stopped"));
    w.port = " 99 ".to_string();
    assert_eq!(w.start(), Some(99));
    w.start_failed("busy");
    assert_eq!(w.status, "didn't start (port in use?): busy");
    w.started(99);
    assert_eq!((w.status.as_str(), w.start()), ("listening on :99", None));
    w.stop();
    assert!(!w.running && w.status == "stopped");
    assert_eq!(ServerWindow::new("ff", &Some("t".to_string())).token, "t");
}

#[test]
fn the_server_window_hides_while_it_runs() {
    let mut w = ServerWindow::new("ff", &None);
    assert!(w.close() == Closing::Exit && !w.hidden);
    assert_eq!(w.repaint_after(1, 0, 0), Some(1000));
    w.started(1);
    assert_eq!((w.repaint_after(0, 0, 0), w.repaint_after(0, 0, 1)), (Some(1000), Some(250)));
    assert!(w.close() == Closing::Hide && w.hidden && w.running);
    assert_eq!(w.repaint_after(1, 1, 1), None);
    w.set_hidden(false);
    assert!(!w.hidden);
    assert_eq!(counts_line(1, 2, 3), "clients 1   ·   encoding 2   ·   queue 3");
}

#[test]
fn places_are_kept() {
    for (x, y) in [(10, 20), (-5, 7), (0, 1), (1920, -1080), (i32::MAX, i32::MIN), (-29999, 0)] {
        let n = keep_place(x, y).unwrap();
        assert_eq!(n, (((x as u32) as u64) << 32) | (y as u32) as u64);
        assert_eq!(kept_place(n), (x, y));
    }
    assert_eq!(keep_place(-30000, 5), None);
    assert_eq!(keep_place(0, 0), Some(0));
    assert_eq!(kept_place(0), (200, 200));
}

#[test]
fn the_icon_is_one_colour() {
    let p = icon_pixels();
    assert_eq!(p.len(), ICON_SIDE * ICON_SIDE * 4);
    assert!(p.chunks(4).all(|c| c == [60, 130, 220, 255]));
}

#[test]
fn fatal_errors_are_logged() {
    assert_eq!(fatal_line("fast6d", "no GL"), "fast6d fatal: no GL\r\n");
    assert_eq!(fatal_file("fast6"), "fast6_error.log");
}
