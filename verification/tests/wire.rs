use fast6::decimal::parse_decimal;
use fast6::encoder::StreamSummary;
use fast6::proto::{
    parse_block, parse_result, read_frame, write_block, write_frame, write_json, write_result,
    FrameError, SummaryDto, MAX_FRAME, TAG_BLOCK, TAG_CTRL, TAG_RESULT,
};
use fast6::server::{decide_admission, incoming, next_outgoing, Admission, Incoming, Outgoing};
use fast6::session::{dto_to_summary, from_daemon, FromDaemon};
use fast6::proto::{C2D, D2C};

#[test]
fn frames_have_a_tag_and_a_length() {
    let mut w = Vec::new();
    write_frame(&mut w, 7, b"abc");
    assert_eq!(w, vec![7, 0, 0, 0, 3, b'a', b'b', b'c']);
    write_json(&mut w, b"{}");
    assert_eq!(w[8..], [TAG_CTRL, 0, 0, 0, 2, b'{', b'}']);
    assert_eq!((TAG_CTRL, TAG_BLOCK, TAG_RESULT, MAX_FRAME), (1, 2, 3, 64 * 1024 * 1024));
}

#[test]
fn frames_read_back() {
    let mut w = Vec::new();
    write_frame(&mut w, 9, &[5; 300]);
    let whole = w.len();
    w.extend_from_slice(b"more");
    let (tag, payload, used) = read_frame(&w).unwrap();
    assert_eq!((tag, payload, used), (9, vec![5u8; 300], whole));
    let mut w = Vec::new();
    write_frame(&mut w, 1, b"");
    assert_eq!(read_frame(&w).unwrap(), (1, vec![], 5));
}

#[test]
fn a_piece_of_a_frame_waits() {
    let mut w = Vec::new();
    write_frame(&mut w, 9, b"hello");
    for n in 0..w.len() {
        assert!(read_frame(&w[..n]) == Err(FrameError::Truncated), "{n}");
    }
}

#[test]
fn a_frame_that_is_too_long_is_refused() {
    assert!(read_frame(&[1, 4, 0, 0, 1]) == Err(FrameError::TooLarge));
    assert!(read_frame(&[1, 4, 0, 0, 0]) == Err(FrameError::Truncated));
    assert!(read_frame(&[1, 255, 255, 255, 255, 0]) == Err(FrameError::TooLarge));
}

#[test]
fn blocks_read_back() {
    let mut w = Vec::new();
    write_block(&mut w, 0x0102_0304_0506_0708, b"data");
    let (tag, payload, _) = read_frame(&w).unwrap();
    assert_eq!(tag, TAG_BLOCK);
    assert_eq!(payload[..8], [1, 2, 3, 4, 5, 6, 7, 8]);
    assert_eq!(parse_block(&payload), Some((0x0102_0304_0506_0708, &b"data"[..])));
    assert_eq!(parse_block(&[0; 7]), None);
    assert_eq!(parse_block(&[0; 8]), Some((0, &b""[..])));
}

#[test]
fn results_read_back() {
    let mut w = Vec::new();
    write_result(&mut w, "jób1", b"\x00\xff");
    let (tag, payload, _) = read_frame(&w).unwrap();
    assert_eq!(tag, TAG_RESULT);
    let (id, data) = parse_result(&payload).unwrap();
    assert_eq!((id.as_str(), data), ("jób1", &b"\x00\xff"[..]));
    assert!(parse_result(&[0]).is_none());
    assert!(parse_result(&[0, 3, b'a', b'b']).is_none());
    let (id, data) = parse_result(&[0, 2, 0xff, b'b', 1]).unwrap();
    assert_eq!((id.as_str(), data), ("\u{fffd}b", &[1u8][..]));
}

#[test]
fn frames_from_a_client() {
    assert!(matches!(incoming(TAG_CTRL, b"x"), Incoming::Control));
    assert!(matches!(incoming(TAG_BLOCK, b"x"), Incoming::Other));
    assert!(matches!(incoming(TAG_RESULT, b"x"), Incoming::Other));
    match incoming(TAG_BLOCK, &[0, 0, 0, 0, 0, 0, 0, 4, 9]) {
        Incoming::Block { req_id, data } => assert_eq!((req_id, data), (4, vec![9])),
        _ => panic!(),
    }
}

#[test]
fn frames_from_the_daemon() {
    assert!(matches!(from_daemon(TAG_CTRL, b""), FromDaemon::Control));
    assert!(matches!(from_daemon(TAG_BLOCK, b"12345678"), FromDaemon::Other));
    assert!(matches!(from_daemon(TAG_RESULT, b"\x00"), FromDaemon::Other));
    match from_daemon(TAG_RESULT, &[0, 1, b'j', 7, 8]) {
        FromDaemon::Piece { job_id, data } => assert_eq!((job_id.as_str(), data), ("j", vec![7, 8])),
        _ => panic!(),
    }
}

#[test]
fn a_token_is_needed() {
    let hello = |t: &str| Some(C2D::Hello { token: t.to_string(), name: "me".to_string() });
    match decide_admission("secret", TAG_CTRL, hello("secret")) {
        Admission::Admit { name, msg: D2C::Welcome { msg } } => {
            assert_eq!((name.as_str(), msg.as_str()), ("me", "hello me"));
        }
        _ => panic!(),
    }
    for m in [hello("wrong"), hello(""), None, Some(C2D::SetParallel { n: 1 })] {
        match decide_admission("secret", TAG_CTRL, m) {
            Admission::Refuse { msg: D2C::Denied { msg } } => assert_eq!(msg, "auth"),
            _ => panic!(),
        }
    }
    assert!(matches!(decide_admission("secret", TAG_BLOCK, hello("secret")), Admission::Drop));
}

#[test]
fn control_goes_first() {
    assert!(next_outgoing(true, true) == Outgoing::Control);
    assert!(next_outgoing(false, true) == Outgoing::Chunk);
    assert!(next_outgoing(false, false) == Outgoing::Wait);
}

#[test]
fn summaries_travel() {
    let mut s = StreamSummary::blank();
    let secs: Vec<char> = "12.5".chars().collect();
    s.duration = parse_decimal(&secs).unwrap();
    s.v_codec = "AV1".to_string();
    s.a_bitrate = "192 kbps".to_string();
    s.dur_str = "0:00:12".to_string();
    let d = SummaryDto::of_summary(&s);
    assert_eq!((d.dur.as_str(), d.dur_sec.spell().parse::<f64>().unwrap()), ("0:00:12", 12.5));
    let back = dto_to_summary(d);
    assert_eq!(back.duration.spell().parse::<f64>().unwrap(), 12.5);
    assert_eq!((back.v_codec.as_str(), back.a_bitrate.as_str()), ("AV1", "192 kbps"));
}
