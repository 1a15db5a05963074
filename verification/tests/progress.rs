use fast6::decimal::{parse_decimal, Decimal};
use fast6::progress::{parse_progress, parse_report, progress_message, read_speed, Pump, Screen};
use fast6::proto::D2C;

const LINE: &str =
    "frame=  240 fps= 48 q=28.0 size=    3825664KiB time=00:01:40.50 bitrate=6667.4kbits/s speed=2.01x";

fn d(t: &str) -> Decimal {
    let c: Vec<char> = t.chars().collect();
    parse_decimal(&c).unwrap()
}

fn float(q: &Decimal) -> f64 {
    q.spell().parse().unwrap()
}

#[test]
fn a_progress_line_is_read() {
    let p = parse_progress(LINE).unwrap();
    assert_eq!((p.frame.as_str(), p.fps.as_str(), p.q.as_str()), ("240", "48", "28.0"));
    assert_eq!(p.size, "3.65 GiB");
    assert_eq!(p.time, "0:01:40");
    assert_eq!(p.bitrate, "6667 kbps");
    assert_eq!(p.speed, "2.01x");
    assert_eq!(float(&p.time_sec), 100.5);
    assert_eq!(float(&p.speed_val), 2.01);
    assert!(parse_progress("frame=1").is_none());
    assert!(parse_progress("speed=1").is_none());
    let p = parse_progress("frame=1 speed=").unwrap();
    assert_eq!((p.speed.as_str(), p.time.as_str(), p.size.as_str()), ("—", "—", "—"));
    let p = parse_progress("frame=1 frame=2 speed=1x speed= N/A").unwrap();
    assert_eq!((p.frame.as_str(), p.speed.as_str()), ("2", "N/A"));
}

#[test]
fn speeds_are_read() {
    assert_eq!(float(&read_speed("1.5x")), 1.5);
    assert_eq!(float(&read_speed("2xx")), 2.0);
    assert!(!read_speed("N/A").is_positive());
    assert!(!read_speed("").is_positive());
}

#[test]
fn the_pump_reports_each_line() {
    let mut p = Pump::new();
    let text = format!("junk\n\x1b7M{LINE}\r\n\x1b[32m{LINE}\r");
    let r = p.feed(text.as_bytes(), &d("301.5"));
    assert_eq!(r.len(), 2);
    assert_eq!(r[0].line.frame, "240");
    assert_eq!(r[0].eta, "0:01:40");
    assert_eq!((r[1].line.frame.as_str(), r[1].line.fps.as_str()), ("240", "48"));
    assert_eq!(p.feed(b"frame=7 sp", &d("0")).len(), 0);
    let r = p.feed(b"eed=1x\n", &d("0"));
    assert_eq!((r[0].line.frame.as_str(), r[0].eta.as_str()), ("7", "—"));
}

#[test]
fn a_report_tells_how_much_is_done() {
    let line = "frame=100 fps=50 q=28.0 size=2048KiB time=00:00:10.00 bitrate=1677.7kbits/s speed=2.0x";
    let p = parse_report(line, &d("40.0")).unwrap();
    assert_eq!(float(&p.percent), 25.0);
    assert_eq!(p.eta, "0:00:15");
    assert_eq!((p.line.size.as_str(), p.line.bitrate.as_str()), ("2 MiB", "1678 kbps"));
    for (time, dur, want) in [
        ("00:00:10.00", "0", 0.0),
        ("00:00:10.00", "-4", 0.0),
        ("00:00:10.00", "nan", 0.0),
        ("00:01:00.00", "40", 100.0),
        ("-01:00:09.00", "40", 0.0),
        ("00:00:01.00", "3", 1.0f64 / 3.0 * 100.0),
        ("00:00:00.10", "0.7", 0.1f64 / 0.7 * 100.0),
        ("00:13:07.77", "5400.123", (13.0 * 60.0 + 7.77f64) / 5400.123 * 100.0),
    ] {
        let p = parse_report(&format!("frame=1 time={time} speed=1x"), &d(dur)).unwrap();
        assert_eq!(float(&p.percent), want, "{time} {dur}");
    }
    assert!(parse_report("frame=1", &d("40")).is_none());
}

#[test]
fn a_report_becomes_a_message() {
    let text = "\x1b[1mframe=7 fps=1 q=1 size=1024KiB time=00:00:01.00 bitrate=8kbits/s speed=1x\n";
    let p = Pump::new().feed(text.as_bytes(), &d("10.0")).remove(0);
    match progress_message("j1", p) {
        D2C::Progress { job_id, frame, time_sec, eta, percent, .. } => {
            assert_eq!((job_id.as_str(), frame.as_str(), eta.as_str()), ("j1", "7", "0:00:09"));
            assert_eq!((float(&time_sec), float(&percent)), (1.0, 10.0));
        }
        _ => panic!(),
    }
}

#[test]
fn the_pump_drops_escape_sequences() {
    let line = "frame=7 fps=1 q=1 size=1024KiB time=00:00:01.00 bitrate=8kbits/s speed=1x";
    for before in ["", "\x1b[1m", "\x1b[0;32m", "\x1b[K", "\x1b(B", "\x1bM", "\x1b[3\x1b[1m", "\x1b\x1b[0m"] {
        let r = Pump::new().feed(format!("{before}{line}\n").as_bytes(), &d("10.0"));
        assert_eq!(r.len(), 1, "{before:?}");
        assert_eq!((r[0].line.frame.as_str(), r[0].line.fps.as_str()), ("7", "1"), "{before:?}");
        assert_eq!((r[0].line.time.as_str(), r[0].eta.as_str()), ("0:00:01", "0:00:09"), "{before:?}");
    }
}

#[test]
fn reports_do_not_depend_on_the_pieces() {
    let text = format!("{LINE}\r\x1b[0m{LINE}\nframe=9 speed=3x\n");
    let mut whole = Pump::new();
    let a: Vec<String> =
        whole.feed(text.as_bytes(), &d("200")).into_iter().map(|p| p.line.frame + &p.eta).collect();
    for size in [1usize, 2, 7, 64] {
        let mut pump = Pump::new();
        let mut b: Vec<String> = Vec::new();
        for piece in text.as_bytes().chunks(size) {
            b.extend(pump.feed(piece, &d("200")).into_iter().map(|p| p.line.frame + &p.eta));
        }
        assert_eq!(a, b);
    }
}

#[test]
fn the_screen_rewrites_its_line() {
    let mut s = Screen::new();
    s.feed(b"hello\rHE");
    assert_eq!(s.text(), "HEllo");
    s.feed(b"\x1b[Kx\n");
    assert_eq!(s.text(), "HEx\n");
    s.feed(b"\x1b]0;title\x07a\tb\x01c");
    assert_eq!(s.text(), "HEx\na\tbc");
    s.feed(b"\x1b[31mred\x1b7");
    assert_eq!(s.text(), "HEx\na\tbcred");
    s.feed(b"\xff");
    assert_eq!(s.text(), "HEx\na\tbcred\u{fffd}");
    assert!(s.progress().is_none());
}

#[test]
fn the_screen_keeps_the_last_progress() {
    let mut s = Screen::new();
    s.feed_text(&format!("{LINE}\r"));
    assert_eq!(s.progress().as_ref().unwrap().frame, "240");
    s.feed_text("frame=  250");
    assert_eq!(s.progress().as_ref().unwrap().frame, "250");
    s.feed_text("\nother\n");
    assert_eq!(s.progress().as_ref().unwrap().frame, "250");
}

#[test]
fn characters_come_out_whatever_the_pieces() {
    let text = "abc\rx\x1b[Kyz\nämne\rÄ";
    let mut whole = Screen::new();
    whole.feed_text(text);
    let mut parts = Screen::new();
    for ch in text.chars() {
        parts.feed_text(&ch.to_string());
    }
    assert_eq!(whole.text(), parts.text());
    assert_eq!(whole.text(), "xyz\nÄmne");
}

#[test]
fn the_log_is_cut_at_its_start() {
    let mut s = Screen::new();
    let line = "x".repeat(999) + "\n";
    s.feed_text(&line.repeat(200));
    assert_eq!(s.text().len(), 200_000);
    s.feed_text("y\n");
    assert_eq!(s.text().len(), 150_000);
    assert!(s.text().ends_with("x\ny\n"));
    let mut s = Screen::new();
    s.feed_text(&("é".repeat(100_001) + "\n"));
    assert_eq!(s.text().len(), 149_999);
}
