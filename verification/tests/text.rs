use fast6::decimal::{decimal_or, parse_decimal, Decimal};
use fast6::format::{
    bitrate_kbps, bits_label, fmt_bitrate, fmt_eta, fmt_fps, fmt_hms, fmt_percent, fmt_size,
    parse_clock, percent_done, share_done,
};
use fast6::natural::Natural;
use fast6::number::{parse_i64, parse_u64, print_i64, print_u64};
use fast6::text::{
    begins_with, concat2, cut_end, cut_start, find_char, has_text, lines_of, split_chars,
    split_once_chars, to_lower, to_upper, trim_chars, white, words_of,
};

fn c(s: &str) -> Vec<char> {
    s.chars().collect()
}

fn s(v: Vec<char>) -> String {
    v.into_iter().collect()
}

fn d(t: &str) -> Decimal {
    parse_decimal(&c(t)).unwrap()
}

fn float(q: &Decimal) -> f64 {
    q.spell().parse().unwrap()
}

#[test]
fn white_space_is_that_of_unicode() {
    for n in 0..=0x10ffffu32 {
        if let Some(ch) = char::from_u32(n) {
            assert_eq!(white(ch), ch.is_whitespace(), "{n:x}");
        }
    }
}

#[test]
fn trimming_and_splitting() {
    assert_eq!(s(trim_chars(&c("  a b\t\n"))), "a b");
    assert_eq!(s(trim_chars(&c(" \u{3000}"))), "");
    let (a, b) = split_once_chars(&c("k=v=w"), '=').unwrap();
    assert_eq!((s(a), s(b)), ("k".to_string(), "v=w".to_string()));
    assert!(split_once_chars(&c("kv"), '=').is_none());
    let parts: Vec<String> = split_chars(&c("1:02:"), ':').into_iter().map(s).collect();
    assert_eq!(parts, vec!["1", "02", ""]);
    let words: Vec<String> = words_of(&c("  x  yz ")).into_iter().map(s).collect();
    assert_eq!(words, vec!["x", "yz"]);
    assert_eq!(find_char(&c("abc"), 'c', 0), 2);
    assert_eq!(find_char(&c("abc"), 'x', 0), 3);
}

#[test]
fn lines_end_as_in_std() {
    for t in ["", "a", "a\n", "a\nb", "a\r\nb\r\n", "\n\nx", "a\rb\n", "a\r"] {
        let ours: Vec<String> = lines_of(&c(t)).into_iter().map(s).collect();
        let theirs: Vec<String> = t.lines().map(String::from).collect();
        assert_eq!(ours, theirs, "{t:?}");
    }
}

#[test]
fn prefixes_and_contents() {
    assert!(has_text(&c("frame= 10 speed=2x"), "speed="));
    assert!(!has_text(&c("frame"), "frames"));
    assert!(has_text(&c("x"), ""));
    assert!(begins_with(&c("bytes=0-"), "bytes="));
    assert!(!begins_with(&c("byte"), "bytes="));
    assert_eq!(s(cut_start(&c("pP7p"), 'p', 'P')), "7p");
    assert_eq!(s(cut_end(&c("2.5xx"), 'x')), "2.5");
    assert_eq!(concat2("ab", "c"), "abc");
}

#[test]
fn ascii_cases_change_as_in_std() {
    for t in ["h264", "H265", "straße", "ǅ", "İ", "ΑΣ", "Éa", ""] {
        assert_eq!(s(to_upper(&c(t))), t.to_ascii_uppercase());
        assert_eq!(s(to_lower(&c(t))), t.to_ascii_lowercase());
    }
}

#[test]
fn numbers_are_read_as_in_std() {
    for t in [
        "0", "7", "+7", "-7", "", "+", "-", "1 ", "00012", "18446744073709551615",
        "18446744073709551616", "9223372036854775807", "9223372036854775808",
        "-9223372036854775808", "-9223372036854775809", "1e3", "１",
    ] {
        assert_eq!(parse_u64(&c(t)), t.parse::<u64>().ok(), "{t}");
        assert_eq!(parse_i64(&c(t)), t.parse::<i64>().ok(), "{t}");
    }
}

#[test]
fn printed_numbers_read_back() {
    for n in [0u64, 9, 10, 12345, u64::MAX] {
        assert_eq!(print_u64(n), n.to_string());
        assert_eq!(parse_u64(&c(&print_u64(n))), Some(n));
    }
    for n in [i64::MIN, -10, -1, 0, 42, i64::MAX] {
        assert_eq!(print_i64(n), n.to_string());
        assert_eq!(parse_i64(&c(&print_i64(n))), Some(n));
    }
}

#[test]
fn naturals_compute() {
    let a = Natural::from_u64(123_456_789);
    let b = Natural::from_u64(987);
    let show = |n: &Natural| s(n.print());
    assert_eq!(show(&a.plus(&b)), "123457776");
    assert_eq!(show(&a.times(1000)), "123456789000");
    assert_eq!(show(&a.times_pow10(3)), "123456789000");
    assert_eq!(show(&a.minus(&b).unwrap()), "123455802");
    assert!(b.minus(&a).is_none());
    assert!(b.below(&a) && !a.below(&b) && !a.below(&a));
    let (q, r) = a.divide(&b);
    assert_eq!((show(&q), show(&r)), ("125082".to_string(), (123_456_789u64 % 987).to_string()));
    assert_eq!(Natural::from_u64(u64::MAX).saturating_i64(), i64::MAX);
    assert_eq!(a.saturating_i64(), 123_456_789);
    assert!(Natural::zero().is_zero());
}

#[test]
fn decimals_are_read_where_floats_are() {
    for t in [
        "1", "1.5", ".5", "5.", ".", "", "+1", "-1", "1e3", "1E-3", "1e", "e1", "1e+2", "nan",
        "NaN", "inf", "-Infinity", "infinit", "1_0", " 1", "1 ", "0x1", "--1", "+-1", "1.2.3",
        "1e400", "1e-400",
    ] {
        assert_eq!(parse_decimal(&c(t)).is_some(), t.parse::<f64>().is_ok(), "{t}");
    }
}

#[test]
fn decimals_compare_with_zero() {
    for t in ["1", "0", "-0", "-1", "0.0000001", "nan", "inf", "-inf", "1e-400", "1e400"] {
        let f: f64 = t.parse().unwrap();
        assert_eq!(d(t).is_positive(), f > 0.0, "{t}");
        assert_eq!(d(t).is_at_most_zero(), f <= 0.0, "{t}");
    }
    assert!(!Decimal::zero().is_positive());
    assert!(Decimal::one().is_positive());
    assert!(decimal_or(&c("x"), Decimal::one()).is_positive());
    assert!(!decimal_or(&c("-3"), Decimal::one()).is_positive());
}

#[test]
fn spelled_quantities_read_back() {
    for t in [
        "0", "1.5", "-12.25", "123456.789", "1e10", "0.001", "inf", "-inf", "90061.5", "0.1", "1e308",
        "1.8e308", "4.9e-324", "2.4e-324", "2.5e-324", "2.2250738585072014e-308", "-1e-310",
        "9007199254740993", "9007199254740995", "179769313486231580793e289", "0.30000000000000004",
    ] {
        let q = d(t);
        let spelled = q.spell();
        assert_eq!(spelled.parse::<f64>().unwrap(), t.parse::<f64>().unwrap(), "{t}");
        assert_eq!(d(&spelled).spell(), spelled);
    }
    assert_eq!(d("nan").spell(), "nan");
}

#[test]
fn seconds_are_shown_as_hours() {
    assert_eq!(fmt_hms(&d("0")), "—");
    assert_eq!(fmt_hms(&d("-5")), "—");
    assert_eq!(fmt_hms(&d("0.5")), "0:00:00");
    assert_eq!(fmt_hms(&d("59.999")), "0:00:59");
    assert_eq!(fmt_hms(&d("3661.2")), "1:01:01");
    assert_eq!(fmt_hms(&d("360000")), "100:00:00");
    assert_eq!(fmt_hms(&d("nan")), "0:00:00");
    assert_eq!(fmt_hms(&d("inf")), "2562047788015215:30:07");
}

fn hms_by_float(secs: f64) -> String {
    if secs <= 0.0 {
        return "—".to_string();
    }
    let n = secs as i64;
    format!("{}:{:02}:{:02}", n / 3600, (n % 3600) / 60, n % 60)
}

#[test]
fn shown_times_agree_with_floats() {
    for t in ["0.04", "1", "12.3456", "7199.99", "86400", "1e5", "1e18", "1e19", "-3", "0"] {
        assert_eq!(fmt_hms(&d(t)), hms_by_float(t.parse().unwrap()), "{t}");
    }
}

#[test]
fn clocks_are_read() {
    assert_eq!(fmt_hms(&parse_clock("01:02:03.50")), "1:02:03");
    assert_eq!(fmt_hms(&parse_clock("00:00:00.00")), "—");
    assert_eq!(fmt_hms(&parse_clock("N/A")), "—");
    assert_eq!(fmt_hms(&parse_clock("1:2")), "—");
    assert_eq!(fmt_hms(&parse_clock("1:x:2")), "1:00:02");
    assert_eq!(fmt_hms(&parse_clock("-00:00:01.5")), "0:00:01");
    for (t, want) in [
        ("01:00:00.25", 3600.25),
        ("00:00:12.34", 12.34),
        ("02:33:44.55", 2.0f64 * 3600.0 + 33.0 * 60.0 + 44.55),
        ("0.1:0.2:0.3", 0.1f64 * 3600.0 + 0.2 * 60.0 + 0.3),
    ] {
        assert_eq!(float(&parse_clock(t)), want, "{t}");
    }
}

#[test]
fn shares_and_percentages() {
    for (a, b) in [("1", "3"), ("10", "40"), ("0.1", "0.7"), ("50", "40"), ("-1", "40"), ("0", "9"), ("1e-320", "3")] {
        let (x, y): (f64, f64) = (a.parse().unwrap(), b.parse().unwrap());
        let want = (x / y).clamp(0.0, 1.0);
        let share = share_done(&d(a), &d(b));
        assert_eq!(float(&share), want, "{a} {b}");
        assert_eq!(fmt_percent(&share), format!("{:.0}%", want * 100.0), "{a} {b}");
        assert_eq!(float(&percent_done(&d(a), &d(b))), (x / y * 100.0).clamp(0.0, 100.0), "{a} {b}");
    }
    for none in ["0", "-3", "nan"] {
        assert_eq!(float(&share_done(&d("5"), &d(none))), 0.0);
        assert_eq!(float(&percent_done(&d("5"), &d(none))), 0.0);
    }
}

#[test]
fn remaining_time() {
    assert_eq!(fmt_eta(&d("100"), &d("40"), &d("2")), "0:00:30");
    assert_eq!(fmt_eta(&d("100"), &d("140"), &d("2")), "—");
    assert_eq!(fmt_eta(&d("100"), &d("40"), &d("0")), "—");
    assert_eq!(fmt_eta(&d("0"), &d("40"), &d("2")), "—");
    assert_eq!(fmt_eta(&d("7200"), &d("0.5"), &d("0.5")), "3:59:59");
    for (a, b, v) in [("5400.25", "12.5", "1.37"), ("60", "59.9", "3.1"), ("1e6", "1", "0.003"), ("0.3", "0.1", "0.2"), ("30.3", "0.3", "0.1")] {
        let (x, y, z): (f64, f64, f64) =
            (a.parse().unwrap(), b.parse().unwrap(), v.parse().unwrap());
        assert_eq!(fmt_eta(&d(a), &d(b), &d(v)), hms_by_float((x - y).max(0.0) / z));
    }
}

#[test]
fn frame_rates() {
    assert_eq!(fmt_fps("24000/1001"), "23.976");
    assert_eq!(fmt_fps("30/1"), "30.000");
    assert_eq!(fmt_fps("0/0"), "0/0");
    assert_eq!(fmt_fps("25"), "25");
    assert_eq!(fmt_fps("x/2"), "0.000");
    assert_eq!(fmt_fps("5/x"), "5.000");
    assert_eq!(fmt_fps("-1/2"), "-0.500");
    assert_eq!(fmt_fps("1/-2"), "1/-2");
    assert_eq!(fmt_fps("1/80"), "0.013");
    for (n, e) in [
        (1, 3), (2, 3), (60000, 1001), (1, 16), (3, 16), (5, 16), (1, 7), (355, 113), (1, 80),
        (3, 80), (7, 80), (1, 400), (3, 400), (2001, 2000), (2003, 2000),
    ] {
        let want = format!("{:.3}", n as f64 / e as f64);
        assert_eq!(fmt_fps(&format!("{n}/{e}")), want);
    }
}

#[test]
fn depths_by_pixel_format() {
    assert_eq!(bits_label("yuv420p10le"), "10-bit");
    assert_eq!(bits_label("p010le"), "10-bit");
    assert_eq!(bits_label("yuv420p12le"), "12-bit");
    assert_eq!(bits_label("p012le"), "12-bit");
    assert_eq!(bits_label("yuv420p"), "8-bit");
    assert_eq!(bits_label("yuv422p9le"), "9-bit");
    assert_eq!(bits_label("yuv444p14be"), "14-bit");
    assert_eq!(bits_label("yuv444p16le"), "16-bit");
    assert_eq!(bits_label("gray16le"), "16-bit");
    assert_eq!(bits_label("gray10le"), "10-bit");
    assert_eq!(bits_label("nv12"), "8-bit");
    assert_eq!(bits_label("rgb24"), "8-bit");
    assert_eq!(bits_label(""), "");
}

#[test]
fn rates_in_thousands() {
    assert_eq!(bitrate_kbps("12345678"), "12346 kbps");
    assert_eq!(bitrate_kbps(" 128000\n"), "128 kbps");
    assert_eq!(bitrate_kbps("N/A"), "");
    assert_eq!(bitrate_kbps("0"), "");
    assert_eq!(bitrate_kbps("-1"), "");
    for t in ["500", "1500", "2500", "2501", "999", "123456", "1.5e6", "9007199254740993499"] {
        let want = format!("{:.0} kbps", t.parse::<f64>().unwrap() / 1000.0);
        assert_eq!(bitrate_kbps(t), want);
    }
}

#[test]
fn sizes_in_binary_units() {
    assert_eq!(fmt_size("0KiB"), "—");
    assert_eq!(fmt_size("N/A"), "—");
    assert_eq!(fmt_size("2048KiB"), "2 MiB");
    assert_eq!(fmt_size("1048576KiB"), "1.00 GiB");
    assert_eq!(fmt_size("1572864"), "1.50 GiB");
    assert_eq!(fmt_size("512kB"), "0 MiB");
    assert_eq!(fmt_size("1536kB"), "2 MiB");
    assert_eq!(fmt_size("1.2.3"), "—");
    for t in ["1", "700", "3000", "1048575", "1048577", "99999999", "1053819", "5248123", "1048576000000001"] {
        let mib = t.parse::<f64>().unwrap() / 1024.0;
        let want = if mib >= 1024.0 {
            format!("{:.2} GiB", mib / 1024.0)
        } else {
            format!("{mib:.0} MiB")
        };
        assert_eq!(fmt_size(t), want);
    }
}

#[test]
fn rates_of_the_output() {
    assert_eq!(fmt_bitrate("1234.5kbits/s"), "1234 kbps");
    assert_eq!(fmt_bitrate("1235.5kbits/s"), "1236 kbps");
    assert_eq!(fmt_bitrate("N/A"), "—");
    assert_eq!(fmt_bitrate("0.0kbits/s"), "—");
}
