use fast6::shim::{
    head_state, next_want, parse_request, read_request, respond, Head, Response, Window, CHUNK,
    HEAD_LIMIT, READAHEAD,
};

#[test]
fn heads_end_with_an_empty_line() {
    assert!(head_state(b"GET / HTTP/1.1\r\n\r\n") == Head::Complete);
    assert!(head_state(b"GET / HTTP/1.1\r\n") == Head::More);
    assert!(head_state(b"") == Head::More);
    assert!(head_state(&vec![b'x'; HEAD_LIMIT]) == Head::More);
    assert!(head_state(&vec![b'x'; HEAD_LIMIT + 1]) == Head::TooLong);
    let mut long = vec![b'x'; HEAD_LIMIT];
    long.extend_from_slice(b"\r\n\r\n");
    assert!(head_state(&long) == Head::Complete);
}

#[test]
fn requests_are_read() {
    let r = read_request(b"GET //job1 HTTP/1.1\r\nHost: x\r\nRANGE: bytes=10-99\r\n\r\n");
    assert_eq!((r.method.as_str(), r.job_id.as_str()), ("GET", "job1"));
    assert_eq!((r.has_range, r.start, r.end), (true, 10, Some(99)));
    let r = parse_request("HEAD /j HTTP/1.1\r\n\r\n");
    assert_eq!((r.has_range, r.start, r.end), (false, 0, None));
    let r = parse_request("GET /j X\r\nRange: bytes=5-\r\n\r\n");
    assert_eq!((r.has_range, r.start, r.end), (true, 5, None));
    let r = parse_request("GET /j X\r\nRange: bytes=x-y\r\n\r\n");
    assert_eq!((r.has_range, r.start, r.end), (true, 0, None));
    let r = parse_request("GET /j X\r\nRange: items=1-2\r\n\r\n");
    assert!(!r.has_range);
    let r = parse_request("");
    assert_eq!((r.method.as_str(), r.job_id.as_str()), ("", ""));
}

fn answer(head: &str, size: Option<u64>) -> Response {
    respond(&parse_request(head), size)
}

#[test]
fn unknown_jobs_are_not_found() {
    match answer("GET /j X\r\n\r\n", None) {
        Response::Refuse { head } => assert_eq!(
            head,
            "HTTP/1.1 404 Not Found\r\nContent-Length: 0\r\nConnection: close\r\n\r\n"
        ),
        _ => panic!(),
    }
}

#[test]
fn ranges_outside_are_refused() {
    for (head, size) in [("GET /j X\r\nRange: bytes=100-\r\n\r\n", 100), ("GET /j X\r\n\r\n", 0)] {
        match answer(head, Some(size)) {
            Response::Refuse { head } => assert_eq!(
                head,
                format!("HTTP/1.1 416 Range Not Satisfiable\r\nContent-Range: bytes */{size}\r\nContent-Length: 0\r\nConnection: close\r\n\r\n")
            ),
            _ => panic!(),
        }
    }
}

#[test]
fn ranges_inside_are_served() {
    match answer("GET /j X\r\nRange: bytes=10-19\r\n\r\n", Some(100)) {
        Response::Serve { head, start, end, body } => {
            assert_eq!((start, end, body), (10, 19, true));
            assert_eq!(
                head,
                "HTTP/1.1 206 Partial Content\r\nAccept-Ranges: bytes\r\nContent-Type: application/octet-stream\r\nContent-Length: 10\r\nConnection: close\r\nContent-Range: bytes 10-19/100\r\n\r\n"
            );
        }
        _ => panic!(),
    }
    match answer("head /j X\r\nRange: bytes=90-500\r\n\r\n", Some(100)) {
        Response::Serve { start, end, body, .. } => assert_eq!((start, end, body), (90, 99, false)),
        _ => panic!(),
    }
    match answer("GET /j X\r\n\r\n", Some(3)) {
        Response::Serve { head, start, end, body } => {
            assert_eq!((start, end, body), (0, 2, true));
            assert_eq!(
                head,
                "HTTP/1.1 200 OK\r\nAccept-Ranges: bytes\r\nContent-Type: application/octet-stream\r\nContent-Length: 3\r\nConnection: close\r\n\r\n"
            );
        }
        _ => panic!(),
    }
}

#[test]
fn blocks_tile_a_range() {
    assert_eq!(next_want(0, 9), 10);
    assert_eq!(next_want(0, CHUNK * 2), CHUNK as u32);
    let (start, end) = (7u64, 7 + CHUNK * 20 + 5);
    let mut w = Window::new(start, end);
    let mut next = start;
    let mut total = 0u64;
    let mut flying = 0usize;
    while !w.is_done() {
        while let Some((off, len)) = w.issue() {
            assert_eq!(off, next);
            assert!(len > 0 && len as u64 <= CHUNK);
            next += len as u64;
            total += len as u64;
            flying += 1;
            assert!(flying <= READAHEAD);
        }
        w.landed();
        flying -= 1;
    }
    assert_eq!(total, end - start + 1);
    assert_eq!(flying, 0);
}

#[test]
fn a_window_at_the_end_of_the_numbers() {
    let mut w = Window::new(u64::MAX - 2, u64::MAX);
    assert_eq!(w.issue(), Some((u64::MAX - 2, 3)));
    assert_eq!(w.issue(), None);
    w.landed();
    assert!(w.is_done());
}
