use fast6::app::{is_explorer_id, App, Effect, ElemId, Focus, Key, Mode, Rect};
use fast6::config;
use fast6::config::{load, save};
use fast6::encoder::{Codec, CropMode};
use fast6::explorer::{start_folder, ExKind, Explorer, Listed};
use fast6::input::{hit, Mouse};
use fast6::path::Platform;
use fast6::proto::{C2D, D2C};
use fast6::session::Session;
use fast6::slot::SlotState;
use fast6::start::{codec_position, ConnectError, Kept, StartStep};

fn kept() -> Kept {
    Kept { mode: None, ffmpeg: None, daemon_addr: None, token: None, codec: None }
}

fn client() -> (App, Session) {
    (App::new(Platform::Unix, "/v", "/usr/bin/ffmpeg", 6, kept()), Session::new(Platform::Unix))
}

fn strings(v: &[&str]) -> Vec<String> {
    v.iter().map(|s| s.to_string()).collect()
}

fn saves(e: &[Effect]) -> Vec<(String, String)> {
    e.iter()
        .filter_map(|x| match x {
            Effect::Save { key, val } => Some((key.clone(), val.clone())),
            _ => None,
        })
        .collect()
}

fn busy(s: &mut Session) {
    s.on_message(D2C::State {
        job_id: "a".to_string(),
        state: "encoding".to_string(),
        detail: String::new(),
    });
}

#[test]
fn settings_are_kept_between_runs() {
    let (a, _) = client();
    assert!(a.mode == Mode::Local && a.crop == CropMode::NoCrop);
    assert_eq!((a.ffmpeg.as_str(), a.daemon_addr.as_str()), ("/usr/bin/ffmpeg", "127.0.0.1:7878"));
    assert_eq!((a.token.as_str(), a.preset_idx, a.bitrate_idx, a.codec_idx), ("changeme", 6, 2, 2));
    let k = Kept {
        mode: Some("daemon".to_string()),
        ffmpeg: Some("/x/ffmpeg".to_string()),
        daemon_addr: Some("h:1".to_string()),
        token: Some("t".to_string()),
        codec: Some("H265".to_string()),
    };
    let a = App::new(Platform::Unix, "/v", "/usr/bin/ffmpeg", 0, k);
    assert!(a.mode == Mode::Daemon && a.codec_idx == 1);
    assert_eq!((a.ffmpeg.as_str(), a.daemon_addr.as_str(), a.token.as_str()), ("/x/ffmpeg", "h:1", "t"));
    assert_eq!(codec_position(&Some("H264".to_string())), 0);
    assert_eq!(codec_position(&Some("nonsense".to_string())), 2);
}

#[test]
fn everything_is_saved_at_the_end() {
    let (a, _) = client();
    let e = saves(&a.persist_all());
    let want = [
        ("ffmpeg", "/usr/bin/ffmpeg"), ("codec", "AV1"), ("mode", "local"),
        ("daemon_addr", "127.0.0.1:7878"), ("token", "changeme"),
    ];
    assert_eq!(e.len(), 5);
    for (i, (k, v)) in want.iter().enumerate() {
        assert_eq!((e[i].0.as_str(), e[i].1.as_str()), (*k, *v));
    }
}

#[test]
fn saved_values_are_loaded() {
    let text = save(&None, "token", "a \"b\" é").unwrap();
    assert_eq!(text, "{\n  \"token\": \"a \\\"b\\\" é\"\n}");
    let text = save(&Some(text), "ffmpeg", "/x").unwrap();
    assert_eq!(load(&Some(text.clone()), "token"), Some("a \"b\" é".to_string()));
    assert_eq!(load(&Some(text.clone()), "ffmpeg"), Some("/x".to_string()));
    assert_eq!(load(&Some(text.clone()), "codec"), None);
    let text = save(&Some(text), "token", "").unwrap();
    assert_eq!(load(&Some(text), "token"), None);
    assert_eq!(load(&None, "token"), None);
    assert_eq!(load(&Some("not json".to_string()), "token"), None);
    assert_eq!(load(&Some("{\"a\": 1}".to_string()), "a"), None);
    let text = save(&Some("broken".to_string()), "k", "v").unwrap();
    assert_eq!(load(&Some(text), "k"), Some("v".to_string()));
}

#[test]
fn the_settings_file_has_its_place() {
    let u = Platform::Unix;
    let (x, h) = (Some("/x".to_string()), Some("/h".to_string()));
    assert_eq!(config::dir(u, &x, &h), "/x/fast6");
    assert_eq!(config::dir(u, &None, &h), "/h/.config/fast6");
    assert_eq!(config::dir(u, &None, &None), "./fast6");
    assert_eq!(config::file(u, &None, &h), "/h/.config/fast6/config.json");
}

#[test]
fn excluded_paths_are_compared_by_their_names() {
    let (mut a, _) = client();
    a.toggle_excluded_file("/v//a.mp4");
    a.toggle_excluded_dir("/v/./d/");
    assert!(a.file_excluded("/v/a.mp4") && a.file_excluded("/v/./a.mp4"));
    assert!(a.dir_excluded("/v/d") && a.file_excluded("/v//d/e/f/c.mp4"));
    assert!(!a.file_excluded("/v/d") && !a.file_excluded("/v/a.mp4/x.mp4"));
    a.toggle_excluded_dir("/v/d");
    a.toggle_excluded_file("/v/a.mp4/");
    assert!(!a.dir_excluded("/v/d") && !a.file_excluded("/v/a.mp4"));
}

#[test]
fn excluded_files_are_left_out() {
    let (mut a, _) = client();
    let found = strings(&["/v/a.mp4", "/v/d/b.mp4", "/v/d/e/c.mp4", "/v/dd/f.mp4"]);
    a.set_files(&found, &found);
    assert_eq!(a.files, found);
    a.toggle_excluded_file("/v/a.mp4");
    a.toggle_excluded_dir("/v/d");
    assert!(a.file_excluded("/v/a.mp4") && a.file_excluded("/v/d/e/c.mp4"));
    assert!(a.dir_excluded("/v/d") && a.dir_excluded("/v/d/e") && !a.dir_excluded("/v/dd"));
    a.set_files(&found, &found);
    assert_eq!(a.files, vec!["/v/dd/f.mp4"]);
    a.toggle_excluded_dir("/v/d");
    a.toggle_excluded_file("/v/a.mp4");
    a.set_files(&found, &found);
    assert_eq!(a.files, found);
}

#[test]
fn the_explorer_lists_folders_first() {
    let l = |n: &str, d: bool| Listed { name: n.to_string(), is_dir: d };
    let listing =
        vec![l("z.mp4", false), l("b", true), l("notes.txt", false), l("A", true), l(".h", true)];
    let mut e = Explorer::open(Platform::Unix, ExKind::Dir, "/v", &listing);
    let names: Vec<&str> = e.entries.iter().map(|x| x.0.as_str()).collect();
    assert!(names.contains(&"z.mp4") && !names.contains(&"notes.txt"));
    let dirs = e.entries.iter().take_while(|x| x.1).count();
    assert!(e.entries[dirs..].iter().all(|x| !x.1));
    let b = e.entries.iter().position(|x| x.0 == "b").unwrap();
    assert!(e.enter(Platform::Unix, b));
    assert_eq!(e.cwd, "/v/b");
    assert!(e.go_up(Platform::Unix));
    assert_eq!(e.cwd, "/v");
    e.refresh(Platform::Unix, "/v", &listing);
    let z = e.entries.iter().position(|x| x.0 == "z.mp4").unwrap();
    assert!(!e.enter(Platform::Unix, z));
    assert!(!e.enter(Platform::Unix, 99));
    e.refresh(Platform::Unix, "/", &vec![]);
    assert!(!e.go_up(Platform::Unix));
    assert_eq!(start_folder(Platform::Unix, "/usr/bin/ffmpeg", false), "/usr/bin");
    assert_eq!(start_folder(Platform::Unix, "/usr", true), "/usr");
    assert_eq!(start_folder(Platform::Unix, "", false), ".");
}

#[test]
fn the_explorer_moves_its_selection() {
    let listing: Vec<Listed> =
        (0..3).map(|i| Listed { name: format!("d{i}"), is_dir: true }).collect();
    let mut e = Explorer::open(Platform::Unix, ExKind::Dir, "/v", &listing);
    e.select_up();
    assert_eq!(e.selected, 0);
    e.select_down();
    e.select_down();
    e.select_down();
    assert_eq!(e.selected, 2);
    e.scroll_by_one(true);
    assert_eq!(e.scroll, 1);
    e.scroll_by_one(false);
    e.scroll_by_one(false);
    assert_eq!(e.scroll, 0);
}

#[test]
fn clicks_choose() {
    let (mut a, mut s) = client();
    let e = a.dispatch(&mut s, ElemId::ModeRemote);
    assert!(a.mode == Mode::Daemon);
    assert_eq!(saves(&e), vec![("mode".to_string(), "daemon".to_string())]);
    a.dispatch(&mut s, ElemId::Codec(0));
    assert_eq!(a.codec_idx, 0);
    a.dispatch(&mut s, ElemId::Preset(3));
    a.dispatch(&mut s, ElemId::Bitrate(0));
    a.dispatch(&mut s, ElemId::Crop(1));
    a.dispatch(&mut s, ElemId::Tab(2));
    assert_eq!((a.preset_idx, a.bitrate_idx, a.selected_tab), (3, 0, 2));
    assert!(a.crop == CropMode::Centered);
    a.connected = true;
    let e = a.dispatch(&mut s, ElemId::Encoders(3));
    assert_eq!(a.parallel, 3);
    assert!(e.iter().any(|x| matches!(x, Effect::TellParallel { n: 3 })));
    let e = a.set_parallel(&mut s, 2);
    assert!(matches!(e[..], [Effect::TellParallel { n: 2 }]));
    assert!(is_explorer_id(ElemId::ExUp) && !is_explorer_id(ElemId::Play));
    let e = a.dispatch(&mut s, ElemId::ConnectBtn);
    assert!(e.iter().any(|x| matches!(x, Effect::Disconnect)));
    a.connected = false;
    let e = a.dispatch(&mut s, ElemId::ConnectBtn);
    assert!(e.iter().any(|x| matches!(x, Effect::Connect)));
}

#[test]
fn fields_are_edited() {
    let (mut a, mut s) = client();
    a.focus_field(Focus::Token);
    assert_eq!(a.edit_cursor, "changeme".chars().count());
    a.handle_key(&mut s, Key::Char('é'), false);
    assert_eq!(a.token, "changemeé");
    a.handle_key(&mut s, Key::Backspace, false);
    assert_eq!(a.token, "changeme");
    a.handle_key(&mut s, Key::Home, false);
    a.handle_key(&mut s, Key::Delete, false);
    assert_eq!(a.token, "hangeme");
    a.handle_key(&mut s, Key::Right, false);
    a.handle_key(&mut s, Key::Char('!'), false);
    assert_eq!(a.token, "h!angeme");
    a.handle_key(&mut s, Key::Left, false);
    a.handle_key(&mut s, Key::End, false);
    assert_eq!(a.edit_cursor, 8);
    let e = a.blur();
    assert!(a.focus == Focus::Nowhere);
    assert_eq!(saves(&e), vec![("token".to_string(), "h!angeme".to_string())]);
}

#[test]
fn leaving_asks_first() {
    let (mut a, mut s) = client();
    let mut quick = client();
    quick.0.handle_key(&mut quick.1, Key::Char('q'), true);
    assert!(quick.0.should_quit);
    busy(&mut s);
    a.handle_key(&mut s, Key::Char('q'), true);
    assert!(a.confirm_exit && !a.should_quit);
    a.handle_key(&mut s, Key::Esc, false);
    assert!(!a.confirm_exit);
    a.request_quit(&s);
    let e = a.handle_key(&mut s, Key::Char('y'), false);
    assert!(a.closing && !a.confirm_exit);
    assert!(e.iter().any(|x| matches!(x, Effect::Feed { slot: 0, .. })));
    assert!(a.after_input(&s).is_empty() && !a.should_quit);
    s.reap(0, 0);
    assert_eq!(a.after_input(&s).len(), 5);
    assert!(a.should_quit);
}

#[test]
fn keys_go_to_ffmpeg() {
    let (mut a, mut s) = client();
    busy(&mut s);
    a.focus = Focus::KeyZone;
    let e = a.handle_key(&mut s, Key::Char('+'), false);
    match &e[..] {
        [Effect::Feed { slot, keys }] => assert_eq!((*slot, keys.as_str()), (0, "+")),
        _ => panic!(),
    }
    a.mode = Mode::Daemon;
    assert!(a.daemon_key(&s, 0, "q").is_empty());
    a.connected = true;
    match &a.daemon_key(&s, 0, "q")[..] {
        [Effect::TellKey { job_id, key }] => assert_eq!((job_id.as_str(), key.as_str()), ("a", "q")),
        _ => panic!(),
    }
    assert!(a.daemon_key(&s, 1, "q").is_empty());
}

#[test]
fn the_last_thing_put_is_hit() {
    let r = |x, y, width, height| Rect { x, y, width, height };
    let hs = vec![(r(0, 0, 10, 10), ElemId::Play), (r(5, 5, 2, 1), ElemId::Stop)];
    assert!(hit(&hs, 5, 5) == Some(ElemId::Stop));
    assert!(hit(&hs, 7, 5) == Some(ElemId::Play));
    assert!(hit(&hs, 10, 0).is_none());
}

#[test]
fn the_mouse_points_clicks_and_scrolls() {
    let (mut a, mut s) = client();
    let hs = vec![(Rect { x: 0, y: 0, width: 3, height: 1 }, ElemId::Tab(1))];
    a.handle_mouse(&mut s, &hs, Mouse::Moved, 1, 0);
    assert!(a.hover == Some(ElemId::Tab(1)));
    a.handle_mouse(&mut s, &hs, Mouse::Down, 1, 0);
    assert_eq!(a.selected_tab, 1);
    a.handle_mouse(&mut s, &hs, Mouse::Moved, 9, 9);
    assert!(a.hover.is_none());
    a.handle_mouse(&mut s, &hs, Mouse::ScrollDown, 9, 9);
    assert_eq!(a.cmd_scroll, 1);
    a.handle_mouse(&mut s, &hs, Mouse::ScrollUp, 9, 9);
    a.handle_mouse(&mut s, &hs, Mouse::ScrollUp, 9, 9);
    assert_eq!(a.cmd_scroll, 0);
}

#[test]
fn the_explorer_keeps_the_keyboard() {
    let (mut a, mut s) = client();
    a.explorer = Some(Explorer::open(Platform::Unix, ExKind::Dir, "/v", &vec![]));
    a.handle_key(&mut s, Key::Char('x'), false);
    assert!(a.explorer.is_some() && !a.should_quit);
    a.handle_key(&mut s, Key::Esc, false);
    assert!(a.explorer.is_none());
}

#[test]
fn encoding_starts_here() {
    let (mut a, mut s) = client();
    assert!(matches!(a.start(&s), StartStep::Halt));
    assert_eq!(a.status_msg, "No files to encode.");
    let found = strings(&["/v/a.mp4", "/v/b.mp4"]);
    a.set_files(&found, &found);
    assert_eq!(a.queue_len(&s), 2);
    a.ffmpeg = " \"/x/ffmpeg\" ".to_string();
    match a.start(&s) {
        StartStep::Check { ffmpeg, ffprobe } => {
            assert_eq!((ffmpeg.as_str(), ffprobe.as_str()), ("/x/ffmpeg", "/x/ffprobe"));
        }
        _ => panic!(),
    }
    assert!(a.start_local(&mut s, false, true).is_none());
    assert_eq!(a.status_msg, "ffmpeg not found at: /x/ffmpeg");
    assert!(a.start_local(&mut s, true, false).is_none());
    assert_eq!(a.status_msg, "ffprobe missing next to ffmpeg: /x/ffprobe");
    let (cfg, e) = a.start_local(&mut s, true, true).unwrap();
    assert_eq!((cfg.preset.as_str(), cfg.high_kbps, cfg.low_kbps), ("p7", 6000, 4000));
    assert!(cfg.codec == Codec::Av1 && cfg.cwd == "/v" && saves(&e).len() == 2);
    assert!(s.is_running() && matches!(a.start(&s), StartStep::Halt));
    assert_eq!(a.queue_len(&s), 2);
}

#[test]
fn encoding_starts_at_the_daemon() {
    let (mut a, mut s) = client();
    a.mode = Mode::Daemon;
    let found = strings(&["/v/a.mp4", "/v/b.mp4"]);
    a.set_files(&found, &found);
    assert!(matches!(a.start(&s), StartStep::Remote));
    a.daemon_addr = " h:1 ".to_string();
    assert_eq!(a.connect_daemon(), Some("h:1".to_string()));
    match a.hello("fast6-tui") {
        C2D::Hello { token, name } => assert_eq!((token.as_str(), name.as_str()), ("changeme", "fast6-tui")),
        _ => panic!(),
    }
    assert!(a.greeted(Some(D2C::Welcome { msg: String::new() })) && a.connected);
    assert_eq!(a.connect_daemon(), None);
    let (_, msgs) = a.start_daemon(&mut s, &vec![1, 2]);
    assert_eq!((msgs.len(), a.job_counter, a.queue_len(&s)), (3, 2, 2));
    a.connection_lost(&mut s);
    assert!(!a.connected && !s.is_running() && s.job_count() == 2);
    a.disconnect_daemon(&mut s);
    assert_eq!(s.job_count(), 0);
}

#[test]
fn connections_fail_in_their_ways() {
    let (mut a, _) = client();
    a.connect_failed(ConnectError::Unreachable { why: "refused".to_string() });
    assert_eq!(a.status_msg, "Couldn't connect to 127.0.0.1:7878: refused");
    a.connect_failed(ConnectError::NoSocket { why: "x".to_string() });
    assert_eq!(a.status_msg, "clone socket: x");
    a.connect_failed(ConnectError::NoHello);
    assert_eq!(a.status_msg, "failed sending Hello");
    a.connect_failed(ConnectError::NoReply);
    assert_eq!(a.status_msg, "no response from the daemon");
    assert!(!a.greeted(Some(D2C::Denied { msg: "auth".to_string() })));
    assert_eq!(a.status_msg, "daemon refused: auth");
    assert!(!a.greeted(None));
    assert_eq!(a.status_msg, "unexpected response from the daemon");
}

#[test]
fn the_folder_is_searched_once() {
    let (mut a, mut s) = client();
    assert!(matches!(a.before_draw(&mut s)[..], [Effect::Scan]));
    assert!(a.before_draw(&mut s).is_empty());
    a.needs_scan = true;
    s.set_running(true);
    assert!(a.before_draw(&mut s).is_empty() && a.needs_scan && s.is_running());
    a.mode = Mode::Daemon;
    a.before_draw(&mut s);
    assert!(!s.is_running());
    assert!(s.slot(0).state == SlotState::Idle);
}
