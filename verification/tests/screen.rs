use fast6::app::{App, ElemId, Focus, Mode, Rect};
use fast6::decimal::{parse_decimal, Decimal};
use fast6::encoder::{CropMode, StreamSummary};
use fast6::explorer::{ExKind, Explorer, Listed};
use fast6::panel::{draw, draw_slot, draw_tabs, kv_line};
use fast6::path::Platform;
use fast6::proto::{SummaryDto, D2C};
use fast6::screen::draw_config;
use fast6::session::Session;
use fast6::slot::SlotState;
use fast6::start::Kept;
use fast6::ui::{
    big_digits, centered, crop_bands, cw, hotspots, inner, look, text_field, Item, Look, Tone,
};

fn rect(x: u16, y: u16, width: u16, height: u16) -> Rect {
    Rect { x, y, width, height }
}

fn number(t: &str) -> Decimal {
    let c: Vec<char> = t.chars().collect();
    parse_decimal(&c).unwrap()
}

fn client() -> (App, Session) {
    let kept = Kept { mode: None, ffmpeg: None, daemon_addr: None, token: None, codec: None };
    (App::new(Platform::Unix, "/v", "/usr/bin/ffmpeg", 6, kept), Session::new(Platform::Unix))
}

fn state(s: &mut Session, st: &str) {
    s.on_message(D2C::State {
        job_id: "a".to_string(),
        state: st.to_string(),
        detail: "details".to_string(),
    });
}

fn spot(items: &Vec<Item>, id: ElemId) -> Option<Rect> {
    hotspots(items).into_iter().rev().find(|h| h.1 == id).map(|h| h.0)
}

#[test]
fn areas() {
    assert_eq!(inner(rect(2, 3, 10, 5)), rect(3, 4, 8, 3));
    assert_eq!((inner(rect(0, 0, 1, 1)).width, inner(rect(0, 0, 1, 1)).height), (0, 0));
    assert_eq!(centered(rect(0, 0, 100, 40), 56, 8), rect(22, 16, 56, 8));
    assert_eq!(centered(rect(5, 5, 10, 4), 56, 8), rect(5, 5, 10, 4));
    assert_eq!(cw("Local"), 9);
    assert!(look(false, true, true) == Look::Disabled);
    assert!(look(true, true, true) == Look::Active);
    assert!(look(true, false, true) == Look::Hover);
    assert!(look(true, false, false) == Look::Plain);
}

#[test]
fn crops_are_pictured() {
    assert_eq!(crop_bands(CropMode::Centered), vec![false, true, false]);
    assert_eq!(crop_bands(CropMode::OneThird), vec![false, true, true]);
    assert_eq!(crop_bands(CropMode::NoCrop), vec![true, true, true]);
}

#[test]
fn fields_show_what_fits() {
    let f = |value: &str, cursor: usize, focused: bool| {
        match text_field(rect(0, 0, 6, 1), ElemId::FieldSrc, value, focused, cursor, false, true) {
            Item::Field { text, cursor, .. } => (text, cursor),
            _ => panic!(),
        }
    };
    let (text, cursor) = f("abc", 3, true);
    assert!(text.contains("abc") && cursor.is_some());
    assert!(f("abc", 3, false).1.is_none());
    let (text, _) = f("abcdefghij", 10, true);
    assert!(text.contains('j') && !text.contains('a'));
}

#[test]
fn digits_are_three_rows_high() {
    assert_eq!(big_digits("7"), [" _ ", "  |", "  |"]);
    assert_eq!(big_digits("12"), ["     _ ", "  |  _|", "  | |_ "]);
    assert_eq!(big_digits(""), ["", "", ""]);
    assert_eq!(big_digits("1x"), big_digits("10"));
    for (s, columns) in [("5", 3), ("34", 7), ("690", 11), ("1234", 15)] {
        for row in big_digits(s) {
            assert_eq!(row.chars().count(), columns);
            assert!(row.chars().all(|c| " _|".contains(c)));
        }
    }
    let all: Vec<[String; 3]> = (0..100).map(|n| big_digits(&format!("{n:02}"))).collect();
    for i in 0..100 {
        for j in 0..i {
            assert!(all[i] != all[j]);
        }
    }
}

#[test]
fn four_digits_fit_in_the_queue() {
    let (mut a, s) = client();
    a.set_files(&vec!["/v/a.mp4".to_string(); 4321], &vec!["/v/a.mp4".to_string(); 4321]);
    let items = draw_config(&a, &s, rect(0, 0, 200, 12));
    let fits = items.iter().any(|i| match i {
        Item::Digits { area, top, .. } => top.chars().count() == area.width as usize && area.width == 15,
        _ => false,
    });
    assert!(fits);
}

#[test]
fn tabs_share_the_width() {
    let (a, s) = client();
    for (x, width) in [(0u16, 100u16), (3, 101), (7, 62), (1, 79), (0, 4), (9, 3), (0, 0)] {
        let items = draw_tabs(&a, &s, rect(x, 5, width, 3));
        let at = |i: u32| x + ((2 * i * width as u32 + 4) / 8) as u16;
        for i in 0..4u32 {
            let want = rect(at(i), 5, at(i + 1) - at(i), 3);
            assert_eq!(spot(&items, ElemId::Tab(i as usize)), Some(want), "{width} {i}");
        }
    }
}

#[test]
fn keys_are_aligned() {
    match kv_line(rect(0, 0, 9, 9), 3, "FPS", "", 7, Tone::Val) {
        Item::Pair { key, value, line, .. } => {
            assert_eq!((key.as_str(), value.as_str(), line), ("    FPS: ", "—", 3));
        }
        _ => panic!(),
    }
    match kv_line(rect(0, 0, 9, 9), 0, "Channels", "2 ch", 7, Tone::Val) {
        Item::Pair { key, value, .. } => assert_eq!((key.as_str(), value.as_str()), ("Channels: ", "2 ch")),
        _ => panic!(),
    }
}

#[test]
fn a_small_window_says_so() {
    let (a, s) = client();
    let items = draw(&a, &s, rect(0, 0, 61, 30));
    assert!(items.iter().any(|i| matches!(i, Item::Label { text, .. } if text == "Enlarge the terminal (min. 62x22).")));
    assert_eq!(spot(&items, ElemId::TitleClose), Some(rect(56, 0, 3, 1)));
    assert!(spot(&items, ElemId::Play).is_none());
    assert!(hotspots(&draw(&a, &s, rect(0, 0, 5, 5))).is_empty());
    assert!(spot(&draw(&a, &s, rect(0, 0, 62, 22)), ElemId::Play).is_some());
}

#[test]
fn a_large_window_has_everything_in_its_place() {
    let (a, s) = client();
    let items = draw(&a, &s, rect(0, 0, 200, 60));
    assert_eq!(spot(&items, ElemId::Play), Some(rect(1, 1, 9, 5)));
    assert_eq!(spot(&items, ElemId::Stop), None);
    assert_eq!(spot(&items, ElemId::ModeLocal), Some(rect(24, 2, 9, 1)));
    assert_eq!(spot(&items, ElemId::ModeRemote), Some(rect(34, 2, 10, 1)));
    assert_eq!(spot(&items, ElemId::BrowseSrc), Some(rect(193, 6, 5, 1)));
    assert_eq!(spot(&items, ElemId::Codec(0)), Some(rect(65, 9, 8, 1)));
    let tabs: Vec<Rect> = (0..4).map(|i| spot(&items, ElemId::Tab(i)).unwrap()).collect();
    for (i, t) in tabs.iter().enumerate() {
        assert_eq!((t.y, t.height), (13, 3));
        assert!(i == 0 || tabs[i - 1].x + tabs[i - 1].width == t.x);
    }
    assert_eq!((tabs[0].x, tabs[3].x + tabs[3].width), (1, 199));
}

#[test]
fn settings_are_locked_while_files_are_encoded() {
    let (mut a, mut s) = client();
    s.set_running(true);
    let ids: Vec<ElemId> =
        hotspots(&draw(&a, &s, rect(0, 0, 200, 60))).into_iter().map(|h| h.1).collect();
    for id in [ElemId::Play, ElemId::Codec(0), ElemId::Preset(1), ElemId::Bitrate(2),
               ElemId::Crop(1), ElemId::ModeLocal, ElemId::FieldSrc, ElemId::FieldFfmpeg] {
        assert!(!ids.contains(&id));
    }
    assert!(ids.contains(&ElemId::Stop) && ids.contains(&ElemId::Encoders(4)));
    s.set_running(false);
    a.mode = Mode::Daemon;
    let ids: Vec<ElemId> =
        hotspots(&draw_config(&a, &s, rect(0, 0, 190, 12))).into_iter().map(|h| h.1).collect();
    assert!(ids.contains(&ElemId::FieldServer) && !ids.contains(&ElemId::FieldFfmpeg));
    assert!(!ids.contains(&ElemId::Stop));
    a.connected = true;
    let ids: Vec<ElemId> =
        hotspots(&draw_config(&a, &s, rect(0, 0, 190, 12))).into_iter().map(|h| h.1).collect();
    assert!(!ids.contains(&ElemId::FieldServer) && ids.contains(&ElemId::ConnectBtn));
}

#[test]
fn a_slot_shows_its_file() {
    let (mut a, mut s) = client();
    let area = rect(0, 0, 120, 40);
    let first = |items: &Vec<Item>| match &items[0] {
        Item::File { name, note, .. } => (name.clone(), note.clone()),
        _ => panic!(),
    };
    assert_eq!(first(&draw_slot(&a, &s, area)), ("idle".to_string(), String::new()));
    s.submit(
        &vec!["/v/a.mkv".to_string()],
        &vec![1],
        0,
        1,
        &fast6::session::JobSettings {
            crop: CropMode::NoCrop,
            codec: fast6::encoder::Codec::Av1,
            preset: "p1".to_string(),
            bitrate_idx: 0,
        },
    );
    s.on_message(D2C::State {
        job_id: "j0".to_string(),
        state: "encoding".to_string(),
        detail: "details".to_string(),
    });
    a.focus = Focus::KeyZone;
    let items = draw_slot(&a, &s, area);
    assert_eq!(first(&items), ("a.mkv".to_string(), "  running".to_string()));
    assert!(items.iter().any(|i| matches!(i, Item::Label { text, .. } if text == "Output: details")));
    assert_eq!(spot(&items, ElemId::KeyZone), Some(rect(1, 22, 46, 1)));
    assert_eq!(spot(&items, ElemId::KeyBtn(b'+')), Some(rect(52, 22, 3, 1)));
    assert!(items.iter().any(|i| matches!(i, Item::Pair { key, value, .. } if key == "     Time: " && value == "— / ")));
    state(&mut s, "failed");
    a.selected_tab = 1;
    let items = draw_slot(&a, &s, area);
    assert!(spot(&items, ElemId::KeyZone).is_none());
    assert!(s.slot(1).state == SlotState::Fail(-1));
    s.show_output(1, "x".repeat(1600), None);
    let items = draw_slot(&a, &s, area);
    match items.last().unwrap() {
        Item::Problem { text, .. } => assert_eq!(text.len(), 1500),
        _ => panic!(),
    }
}

#[test]
fn the_gauge_fills() {
    let (a, mut s) = client();
    let gauge = |s: &Session| {
        let items = draw_slot(&a, s, rect(0, 0, 200, 60));
        items
            .into_iter()
            .find_map(|i| match i {
                Item::Gauge { done, label, .. } => Some((done.spell().parse::<f64>().unwrap(), label)),
                _ => None,
            })
            .unwrap()
    };
    assert_eq!(gauge(&s), (0.0, "0%".to_string()));
    state(&mut s, "encoding");
    let tell = |s: &mut Session, dur: &str, time: &str| {
        let mut m = StreamSummary::blank();
        m.duration = number(dur);
        s.on_message(D2C::Streams {
            job_id: "a".to_string(),
            source: SummaryDto::of_summary(&m),
            target: SummaryDto::of_summary(&m),
            cmd: "".to_string(),
        });
        s.on_message(D2C::Progress {
            job_id: "a".to_string(),
            frame: "1".to_string(),
            fps: "1".to_string(),
            q: "1".to_string(),
            size: "1 MiB".to_string(),
            time: "0:00:01".to_string(),
            bitrate: "1 kbps".to_string(),
            speed: "1x".to_string(),
            time_sec: number(time),
            eta: "—".to_string(),
            percent: Decimal::zero(),
        });
    };
    for (dur, time, share, label) in [
        ("3", "1", 1.0 / 3.0, "33%"),
        ("40", "10", 0.25, "25%"),
        ("200", "1", 0.005, "0%"),
        ("200", "3", 0.015, "2%"),
        ("3", "7", 1.0, "100%"),
        ("0", "7", 0.0, "0%"),
    ] {
        tell(&mut s, dur, time);
        assert_eq!(gauge(&s), (share, label.to_string()), "{time} of {dur}");
    }
}

#[test]
fn the_explorer_shows_what_is_left_out() {
    let (mut a, s) = client();
    let listing = vec![
        Listed { name: "d".to_string(), is_dir: true },
        Listed { name: "f.mp4".to_string(), is_dir: false },
    ];
    a.explorer = Some(Explorer::open(Platform::Unix, ExKind::Dir, "/v", &listing));
    a.toggle_excluded_file("/v/f.mp4");
    let items = draw(&a, &s, rect(0, 0, 200, 60));
    let texts: Vec<&str> = items
        .iter()
        .filter_map(|i| match i {
            Item::Entry { text, .. } => Some(text.as_str()),
            _ => None,
        })
        .collect();
    assert_eq!(texts, vec!["  📁 ..", "  [x] 📁 d", "  [ ] f.mp4"]);
    let row = spot(&items, ElemId::ExRow(1)).unwrap();
    assert_eq!(spot(&items, ElemId::ExCheck(1)), Some(rect(row.x + 2, row.y, 4, 1)));
    assert!(spot(&items, ElemId::ExOpen).is_some() && spot(&items, ElemId::ExCancel).is_some());
    a.explorer = Some(Explorer::open(Platform::Unix, ExKind::File, "/v", &listing));
    let items = draw(&a, &s, rect(0, 0, 200, 60));
    assert!(spot(&items, ElemId::ExCheck(1)).is_none());
    assert!(items.iter().any(|i| matches!(i, Item::Button { label, .. } if label == "[ Choose file ]")));
}

#[test]
fn dialogs_are_in_the_middle() {
    let (mut a, mut s) = client();
    state(&mut s, "encoding");
    a.confirm_exit = true;
    let items = draw(&a, &s, rect(0, 0, 200, 60));
    assert_eq!(spot(&items, ElemId::ConfirmYes), Some(rect(74, 32, 14, 1)));
    assert_eq!(spot(&items, ElemId::ConfirmNo), Some(rect(91, 32, 14, 1)));
    assert!(items.iter().any(|i| matches!(i, Item::Message { text, .. } if text.starts_with("There are 1 ffmpeg process(es) running."))));
    a.confirm_exit = false;
    a.closing = true;
    let items = draw(&a, &s, rect(0, 0, 200, 60));
    assert!(items.iter().any(|i| matches!(i, Item::Message { text, .. } if text == "Waiting for 1 process(es) to close (q, clean shutdown)…")));
}
