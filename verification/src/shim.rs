//! The HTTP shim: ffmpeg reads a job's input from it by ranges, and each range
//! is served in blocks.
use vstd::prelude::*;
use vstd::string::*;
use crate::number::{
    dec, dec_is_its_value, is_digit, only_what_fits_is_read, parse_u64, print_u64, u64_of,
};
use crate::text::{
    all_white, ascii_lower, begins, begins_with, char_texts, chars_are, chars_of, cut_start,
    decoded, is_trimmed, is_white, lemma_char_texts_push, lower, no_white, split, split_chars,
    string_of, sub_chars, text_is_cut_at_its_first_mark, text_of_bytes, to_lower, trim, trim_chars,
    trim_start_of, white_ends_are_trimmed, words, words_are_parted_by_white_space, words_of,
};

verus! {

// ---------------------------------------------------------------- the head
/// A request's head may not be longer than this.
pub const HEAD_LIMIT: usize = 16384;

/// Whether the blank line that ends a head stands at position `i`.
pub open spec fn head_ends_at(b: Seq<u8>, i: int) -> bool {
    0 <= i && i + 4 <= b.len() && b[i] == 13 && b[i + 1] == 10 && b[i + 2] == 13 && b[i + 3] == 10
}

/// What is to be done with the bytes of a request received so far.
#[derive(Clone, Copy, PartialEq, Eq, Structural, Debug)]
pub enum Head {
    /// The head is complete.
    Complete,
    /// More bytes are needed.
    More,
    /// The head is too long; the connection is dropped.
    TooLong,
}

/// What is to be done with the bytes of a request received so far.
pub fn head_state(buf: &[u8]) -> (r: Head)
    ensures
        r == Head::Complete <==> exists|i: int| head_ends_at(buf@, i),
        r == Head::TooLong <==> (buf@.len() > HEAD_LIMIT && !exists|i: int| head_ends_at(buf@, i)),
{
    let n = buf.len();
    let mut i: usize = 0;
    while i < n && n - i >= 4
        invariant
            i <= n == buf@.len(),
            forall|j: int| 0 <= j < i ==> !head_ends_at(buf@, j),
        decreases n - i,
    {
        if buf[i] == 13 && buf[i + 1] == 10 && buf[i + 2] == 13 && buf[i + 3] == 10 {
            assert(head_ends_at(buf@, i as int));
            return Head::Complete;
        }
        i += 1;
    }
    assert forall|j: int| !head_ends_at(buf@, j) by {
        if 0 <= j && j + 4 <= buf@.len() {
            assert(j < i);
        }
    }
    if n > HEAD_LIMIT {
        Head::TooLong
    } else {
        Head::More
    }
}

/// The first line break (carriage return and line feed) at or after `i`, or the
/// length of `s`.
pub open spec fn break_from(s: Seq<char>, i: int) -> int
    decreases s.len() - i,
{
    if i < 0 || i + 1 >= s.len() {
        s.len() as int
    } else if s[i] == '\r' && s[i + 1] == '\n' {
        i
    } else {
        break_from(s, i + 1)
    }
}

/// The lines of a head.
pub open spec fn head_lines(s: Seq<char>) -> Seq<Seq<char>>
    decreases s.len(),
{
    let k = break_from(s, 0);
    if 0 <= k && k + 2 <= s.len() {
        seq![s.take(k)] + head_lines(s.skip(k + 2))
    } else {
        seq![s]
    }
}

proof fn lemma_break_shift(s: Seq<char>, i: int, j: int)
    requires
        0 <= i <= s.len(),
        0 <= j <= s.len() - i,
    ensures
        break_from(s.skip(i), j) == break_from(s, i + j) - i,
        i + j <= break_from(s, i + j) <= s.len(),
        break_from(s, i + j) + 2 <= s.len() || break_from(s, i + j) == s.len(),
    decreases s.len() - i - j,
{
    if i + j + 1 < s.len() {
        lemma_break_shift(s, i, j + 1);
    }
}

fn split_head(s: &[char]) -> (r: Vec<Vec<char>>)
    ensures
        char_texts(r@) == head_lines(s@),
        r@.len() >= 1,
{
    let mut r: Vec<Vec<char>> = Vec::new();
    let mut at: usize = 0;
    let n = s.len();
    assert(s@.skip(0) =~= s@);
    assert(char_texts(r@) + head_lines(s@.skip(0)) =~= head_lines(s@));
    loop
        invariant
            at <= n == s@.len(),
            char_texts(r@) + head_lines(s@.skip(at as int)) == head_lines(s@),
        decreases n - at,
    {
        let ghost before = char_texts(r@);
        let ghost tail = s@.skip(at as int);
        let mut k: usize = at;
        while k < n && n - k >= 2 && !(s[k] == '\r' && s[k + 1] == '\n')
            invariant
                at <= k <= n == s@.len(),
                break_from(s@, at as int) == break_from(s@, k as int),
            decreases n - k,
        {
            k += 1;
        }
        if n - k < 2 {
            k = n;
        }
        proof {
            lemma_break_shift(s@, at as int, 0);
        }
        assert(k == break_from(s@, at as int));
        let piece = sub_chars(s, at, k);
        assert(piece@ =~= tail.take(k - at));
        proof {
            lemma_char_texts_push(r@, piece);
        }
        r.push(piece);
        if k == n {
            assert(tail.take(k - at) =~= tail);
            assert(char_texts(r@) =~= before + seq![tail]);
            return r;
        }
        assert(tail.skip(k - at + 2) =~= s@.skip(k + 2));
        assert(char_texts(r@) + head_lines(s@.skip(k + 2)) =~= before + (seq![tail.take(k - at)]
            + head_lines(s@.skip(k + 2))));
        at = k + 2;
    }
}

// ---------------------------------------------------------------- the request
/// The part of a file that a request asks for.
#[verifier::ext_equal]
pub struct RangeView {
    pub given: bool,
    pub start: int,
    pub end: Option<int>,
}

/// The number in a text, white space around it removed, or zero.
pub open spec fn start_of(s: Seq<char>) -> int {
    match u64_of(trim(s)) {
        Some(n) => n,
        None => 0,
    }
}

/// The range after one more line of the head, in lower case. The last line that
/// gives a part counts for that part.
pub open spec fn range_after(r: RangeView, line: Seq<char>) -> RangeView {
    let v = trim(line.skip(6));
    if begins(line, "range:"@) && begins(v, "bytes="@) {
        let parts = split(v.skip(6), '-');
        RangeView {
            given: true,
            start: start_of(parts[0]),
            end: if parts.len() > 1 && trim(parts[1]).len() > 0 {
                u64_of(trim(parts[1]))
            } else {
                r.end
            },
        }
    } else {
        r
    }
}

/// The range after some lines of the head.
pub open spec fn range_in(ls: Seq<Seq<char>>) -> RangeView
    decreases ls.len(),
{
    if ls.len() == 0 {
        RangeView { given: false, start: 0, end: None }
    } else {
        range_after(range_in(ls.drop_last()), ascii_lower(ls.last()))
    }
}

/// The word at `i` of a text, or `other`.
pub open spec fn word_or(s: Seq<char>, i: int, other: Seq<char>) -> Seq<char> {
    if i < words(s).len() {
        words(s)[i]
    } else {
        other
    }
}

/// A request, as far as the shim cares.
pub struct Request {
    pub method: String,
    pub job_id: String,
    pub has_range: bool,
    pub start: u64,
    pub end: Option<u64>,
}

/// The method in a head.
pub open spec fn method_of(head: Seq<char>) -> Seq<char> {
    word_or(head_lines(head)[0], 0, ""@)
}

/// The job a head asks for: the path without its leading slashes.
pub open spec fn job_of(head: Seq<char>) -> Seq<char> {
    trim_start_of(word_or(head_lines(head)[0], 1, "/"@), '/', '/')
}

/// The range a head asks for.
pub open spec fn range_of(head: Seq<char>) -> RangeView {
    range_in(head_lines(head).skip(1))
}

impl Request {
    /// The range that the request asks for.
    pub open spec fn range(&self) -> RangeView {
        RangeView {
            given: self.has_range,
            start: self.start as int,
            end: match self.end {
                Some(e) => Some(e as int),
                None => None,
            },
        }
    }
}

fn nth_word(s: &[char], i: usize, other: &str) -> (r: Vec<char>)
    ensures
        r@ == word_or(s@, i as int, other@),
{
    let ws = words_of(s);
    assert(char_texts(ws@).len() == ws@.len());
    if i < ws.len() {
        assert(char_texts(ws@)[i as int] == ws@[i as int]@);
        let w = &ws[i];
        let r = sub_chars(w.as_slice(), 0, w.len());
        assert(r@ =~= w@);
        r
    } else {
        chars_of(other)
    }
}

/// Reads a request's head.
pub fn parse_request(head: &str) -> (r: Request)
    ensures
        r.method@ == method_of(head@),
        r.job_id@ == job_of(head@),
        r.range() == range_of(head@),
{
    let c = chars_of(head);
    let ls = split_head(c.as_slice());
    let ghost all = char_texts(ls@);
    assert(all[0] == ls@[0]@);
    let method = string_of(nth_word(ls[0].as_slice(), 0, "").as_slice());
    let path = nth_word(ls[0].as_slice(), 1, "/");
    let job_id = string_of(cut_start(path.as_slice(), '/', '/').as_slice());
    let mut given = false;
    let mut start: u64 = 0;
    let mut end: Option<u64> = None;
    let ghost rest = all.skip(1);
    assert(rest.take(0) =~= Seq::empty());
    let mut i: usize = 1;
    while i < ls.len()
        invariant
            1 <= i <= ls@.len(),
            all == char_texts(ls@),
            rest == all.skip(1),
            range_in(rest.take(i - 1)) == (RangeView {
                given,
                start: start as int,
                end: match end {
                    Some(e) => Some(e as int),
                    None => None,
                },
            }),
        decreases ls@.len() - i,
    {
        assert(rest.take(i as int).drop_last() =~= rest.take(i - 1));
        assert(rest.take(i as int).last() == ls@[i as int]@);
        let low = to_lower(ls[i].as_slice());
        proof {
            reveal_strlit("range:");
            reveal_strlit("bytes=");
        }
        if begins_with(low.as_slice(), "range:") {
            let n = low.len();
            let v = trim_chars(sub_chars(low.as_slice(), 6, n).as_slice());
            assert(low@.subrange(6, n as int) =~= low@.skip(6));
            if begins_with(v.as_slice(), "bytes=") {
                let m = v.len();
                let spec_part = sub_chars(v.as_slice(), 6, m);
                assert(spec_part@ =~= v@.skip(6));
                let parts = split_chars(spec_part.as_slice(), '-');
                assert(char_texts(parts@).len() == parts@.len());
                assert(char_texts(parts@)[0] == parts@[0]@);
                given = true;
                let a = trim_chars(parts[0].as_slice());
                start = match parse_u64(a.as_slice()) {
                    Some(x) => x,
                    None => 0,
                };
                if parts.len() > 1 {
                    assert(char_texts(parts@)[1] == parts@[1]@);
                    let e = trim_chars(parts[1].as_slice());
                    if e.len() > 0 {
                        end = parse_u64(e.as_slice());
                    }
                }
            }
        }
        i += 1;
    }
    assert(rest.take(ls@.len() - 1) =~= rest);
    Request { method, job_id, has_range: given, start, end }
}

/// Reads a request's head from the bytes received.
pub fn read_request(buf: &[u8]) -> (r: Request)
    ensures
        r.method@ == method_of(decoded(buf@)),
        r.job_id@ == job_of(decoded(buf@)),
        r.range() == range_of(decoded(buf@)),
{
    let t = text_of_bytes(buf);
    parse_request(t.as_str())
}

// ---------------------------------------------------------------- the response
/// The answer to a request.
pub enum Response {
    /// Nothing but the head.
    Refuse { head: String },
    /// The head and then the bytes from `start` to `end`, or the head alone.
    Serve { head: String, start: u64, end: u64, body: bool },
}

/// The last byte that a range asks for in a file of a size.
pub open spec fn last_byte(r: RangeView, size: int) -> int {
    let last = if size > 0 {
        size - 1
    } else {
        0
    };
    match r.end {
        Some(e) => if e < last {
            e
        } else {
            last
        },
        None => last,
    }
}

/// Whether a range can be served from a file of a size.
pub open spec fn satisfiable(r: RangeView, size: int) -> bool {
    size > 0 && r.start <= last_byte(r, size)
}

/// The head for a job that does not exist.
pub open spec fn not_found_head() -> Seq<char> {
    "HTTP/1.1 404 Not Found\r\nContent-Length: 0\r\nConnection: close\r\n\r\n"@
}

/// The head for a range that cannot be served.
pub open spec fn unsatisfiable_head(size: int) -> Seq<char> {
    "HTTP/1.1 416 Range Not Satisfiable\r\nContent-Range: bytes */"@ + dec(size)
        + "\r\nContent-Length: 0\r\nConnection: close\r\n\r\n"@
}

/// The head before a body.
pub open spec fn body_head(given: bool, start: int, end: int, size: int) -> Seq<char> {
    "HTTP/1.1 "@ + (if given {
        "206 Partial Content"@
    } else {
        "200 OK"@
    })
        + "\r\nAccept-Ranges: bytes\r\nContent-Type: application/octet-stream\r\nContent-Length: "@
        + dec(end - start + 1) + "\r\nConnection: close\r\n"@ + (if given {
        "Content-Range: bytes "@ + dec(start) + "-"@ + dec(end) + "/"@ + dec(size) + "\r\n"@
    } else {
        ""@
    }) + "\r\n"@
}

/// Whether a response is the one to a request for a file of a size, or for no
/// file at all.
pub open spec fn answers(
    r: Response,
    method: Seq<char>,
    range: RangeView,
    size: Option<int>,
) -> bool {
    match size {
        None => r matches Response::Refuse { head } && head@ == not_found_head(),
        Some(size) => if !satisfiable(range, size) {
            r matches Response::Refuse { head } && head@ == unsatisfiable_head(size)
        } else {
            r matches Response::Serve { head, start, end, body } && start == range.start && end
                == last_byte(range, size) && head@ == body_head(
                range.given,
                range.start,
                last_byte(range, size),
                size,
            ) && body == (ascii_lower(method) != "head"@)
        },
    }
}

fn print_body_head(given: bool, start: u64, end: u64, size: u64) -> (r: String)
    requires
        start <= end < size,
    ensures
        r@ == body_head(given, start as int, end as int, size as int),
{
    let mut h = String::new();
    h.append("HTTP/1.1 ");
    assert(h@ =~= "HTTP/1.1 "@);
    h.append(
        if given {
            "206 Partial Content"
        } else {
            "200 OK"
        },
    );
    h.append(
        "\r\nAccept-Ranges: bytes\r\nContent-Type: application/octet-stream\r\nContent-Length: ",
    );
    h.append(print_u64(end - start + 1).as_str());
    h.append("\r\nConnection: close\r\n");
    let mut c = String::new();
    if given {
        c.append("Content-Range: bytes ");
        assert(c@ =~= "Content-Range: bytes "@);
        c.append(print_u64(start).as_str());
        c.append("-");
        c.append(print_u64(end).as_str());
        c.append("/");
        c.append(print_u64(size).as_str());
        c.append("\r\n");
    } else {
        c.append("");
        assert(c@ =~= ""@);
    }
    h.append(c.as_str());
    h.append("\r\n");
    h
}

/// Answers a request. `size` is the size of the job's file, where there is such
/// a job.
pub fn respond(req: &Request, size: Option<u64>) -> (r: Response)
    ensures
        answers(
            r,
            req.method@,
            req.range(),
            match size {
                Some(n) => Some(n as int),
                None => None,
            },
        ),
{
    let size = match size {
        None => {
            return Response::Refuse {
                head: "HTTP/1.1 404 Not Found\r\nContent-Length: 0\r\nConnection: close\r\n\r\n".to_string(),
            };
        },
        Some(n) => n,
    };
    let last: u64 = if size > 0 {
        size - 1
    } else {
        0
    };
    let end: u64 = match req.end {
        Some(e) => if e < last {
            e
        } else {
            last
        },
        None => last,
    };
    if size == 0 || req.start > end {
        let mut h = String::new();
        h.append("HTTP/1.1 416 Range Not Satisfiable\r\nContent-Range: bytes */");
        assert(h@ =~= "HTTP/1.1 416 Range Not Satisfiable\r\nContent-Range: bytes */"@);
        h.append(print_u64(size).as_str());
        h.append("\r\nContent-Length: 0\r\nConnection: close\r\n\r\n");
        return Response::Refuse { head: h };
    }
    let m = chars_of(req.method.as_str());
    let low = to_lower(m.as_slice());
    let head_only = chars_are(low.as_slice(), "head");
    Response::Serve {
        head: print_body_head(req.has_range, req.start, end, size),
        start: req.start,
        end,
        body: !head_only,
    }
}

// ---------------------------------------------------------------- blocks
/// The size of a block.
pub const CHUNK: u64 = 262144;

/// How many blocks may be asked for and not yet have arrived.
pub const READAHEAD: usize = 16;

/// The length of the block at an offset.
pub open spec fn block_len(off: int, end: int) -> int {
    if end - off + 1 < CHUNK {
        end - off + 1
    } else {
        CHUNK as int
    }
}

/// The blocks from an offset to the end of a range: offsets and lengths.
pub open spec fn blocks(off: int, end: int) -> Seq<(int, int)>
    decreases end - off + 1,
{
    if off > end {
        Seq::empty()
    } else if off + CHUNK > end {
        seq![(off, block_len(off, end))]
    } else {
        seq![(off, block_len(off, end))] + blocks(off + CHUNK, end)
    }
}

/// How much of a local file to read next, at an offset up to the end of a range.
pub fn next_want(off: u64, end: u64) -> (r: u32)
    requires
        off <= end,
    ensures
        r == block_len(off as int, end as int),
        0 < r <= CHUNK,
{
    if end - off < CHUNK {
        (end - off + 1) as u32
    } else {
        CHUNK as u32
    }
}

/// A window over the blocks of a range: some are on their way, the rest are
/// still to be asked for.
pub struct Window {
    next: u128,
    end: u64,
    waiting: usize,
}

impl Window {
    /// The offset of the first block that has not been asked for.
    pub closed spec fn next(&self) -> int {
        self.next as int
    }

    /// The last byte of the range.
    pub closed spec fn end(&self) -> int {
        self.end as int
    }

    /// How many blocks are on their way.
    pub closed spec fn waiting(&self) -> int {
        self.waiting as int
    }

    /// No more than the readahead is on its way.
    pub closed spec fn wf(&self) -> bool {
        self.waiting <= READAHEAD && self.next <= self.end as int + CHUNK
    }

    /// The number of blocks on their way is bounded.
    pub proof fn window_is_bounded(&self)
        requires
            self.wf(),
        ensures
            0 <= self.waiting() <= READAHEAD,
    {
    }

    /// A window over the bytes from `start` to `end`.
    pub fn new(start: u64, end: u64) -> (r: Window)
        requires
            start <= end,
        ensures
            r.wf(),
            r.next() == start,
            r.end() == end,
            r.waiting() == 0,
    {
        Window { next: start as u128, end, waiting: 0 }
    }

    /// The block to ask for now, if there is room for one and any is left.
    pub fn issue(&mut self) -> (r: Option<(u64, u32)>)
        requires
            old(self).wf(),
        ensures
            final(self).wf(),
            final(self).end() == old(self).end(),
            match r {
                Some((off, len)) => {
                    &&& old(self).next() <= old(self).end() && old(self).waiting() < READAHEAD
                    &&& off == old(self).next()
                    &&& len == block_len(old(self).next(), old(self).end())
                    &&& final(self).next() == old(self).next() + CHUNK
                    &&& final(self).waiting() == old(self).waiting() + 1
                },
                None => {
                    &&& old(self).next() > old(self).end() || old(self).waiting() == READAHEAD
                    &&& final(self).next() == old(self).next()
                    &&& final(self).waiting() == old(self).waiting()
                },
            },
    {
        if self.next > self.end as u128 || self.waiting >= READAHEAD {
            return None;
        }
        let off: u64 = self.next as u64;
        let len = next_want(off, self.end);
        self.next = self.next + CHUNK as u128;
        self.waiting = self.waiting + 1;
        Some((off, len))
    }

    /// A block has arrived and was passed on.
    pub fn landed(&mut self)
        requires
            old(self).wf(),
            old(self).waiting() > 0,
        ensures
            final(self).wf(),
            final(self).next() == old(self).next(),
            final(self).end() == old(self).end(),
            final(self).waiting() == old(self).waiting() - 1,
    {
        self.waiting = self.waiting - 1;
    }

    /// Whether everything was asked for and has arrived.
    pub fn is_done(&self) -> (r: bool)
        requires
            self.wf(),
        ensures
            r == (self.next() > self.end() && self.waiting() == 0),
    {
        self.next > self.end as u128 && self.waiting == 0
    }
}

// ---------------------------------------------------------------- laws
/// The blocks of a range lie end to end: each begins where the one before it
/// ends, the first at the start, and the last ends with the range.
pub proof fn blocks_tile_the_range(off: int, end: int)
    requires
        off <= end,
    ensures
        ({
            let b = blocks(off, end);
            &&& b.len() > 0
            &&& b[0].0 == off
            &&& b.last().0 + b.last().1 == end + 1
            &&& forall|i: int| 0 <= i < b.len() ==> 0 < (#[trigger] b[i]).1 <= CHUNK
            &&& forall|i: int|
                0 <= i < b.len() - 1 ==> (#[trigger] b[i]).0 + b[i].1 == b[i + 1].0
        }),
    decreases end - off,
{
    let b = blocks(off, end);
    if off + CHUNK <= end {
        blocks_tile_the_range(off + CHUNK, end);
        let rest = blocks(off + CHUNK, end);
        assert forall|i: int| 0 <= i < b.len() - 1 implies (#[trigger] b[i]).0 + b[i].1 == b[i
            + 1].0 by {
            assert(b[i + 1] == rest[i]);
            if i > 0 {
                assert(b[i] == rest[i - 1]);
            }
        }
        assert forall|i: int| 0 <= i < b.len() implies 0 < (#[trigger] b[i]).1 <= CHUNK by {
            if i > 0 {
                assert(b[i] == rest[i - 1]);
            }
        }
        assert(b.last() == rest.last());
    }
}

/// How many bytes some blocks hold.
pub open spec fn total_len(b: Seq<(int, int)>) -> int
    decreases b.len(),
{
    if b.len() == 0 {
        0
    } else {
        b[0].1 + total_len(b.drop_first())
    }
}

/// The blocks of a range hold as many bytes as its head announces.
pub proof fn blocks_hold_the_body(off: int, end: int)
    requires
        off <= end + 1,
    ensures
        total_len(blocks(off, end)) == end - off + 1,
    decreases end - off + 1,
{
    let b = blocks(off, end);
    reveal_with_fuel(total_len, 2);
    if off <= end {
        assert(b.drop_first() =~= blocks(off + CHUNK, end));
        if off + CHUNK <= end {
            blocks_hold_the_body(off + CHUNK, end);
        }
    }
}

/// A window asks for the blocks of its range one after the other: the block it
/// asks for is the first of those left, and the others are left after it.
pub proof fn window_follows_the_blocks(next: int, end: int)
    requires
        next <= end,
    ensures
        blocks(next, end) == seq![(next, block_len(next, end))] + blocks(next + CHUNK, end),
{
    assert(blocks(next, end) =~= seq![(next, block_len(next, end))] + blocks(next + CHUNK, end));
}

/// What is served lies inside the file, and begins where it was asked for.
pub proof fn served_range_is_inside(r: RangeView, size: int)
    requires
        r.start >= 0,
        satisfiable(r, size),
    ensures
        0 <= r.start <= last_byte(r, size) < size,
        r.end matches Some(e) ==> last_byte(r, size) <= e,
{
}

/// A range without an end is served to the last byte of the file, and a range with
/// an end is served to that byte, or to the last one where the file ends before it.
/// A range that begins behind its end or behind the file is refused, and so is every
/// range of an empty file.
pub proof fn range_is_served_to_its_end(
    r: Response,
    method: Seq<char>,
    range: RangeView,
    size: int,
)
    requires
        answers(r, method, range, Some(size)),
        range.start >= 0,
        size >= 0,
    ensures
        range.start < size && range.end is None ==> (r matches Response::Serve { start, end, .. }
            && start == range.start && end == size - 1),
        range.start < size ==> (range.end matches Some(e) ==> (range.start <= e && e < size ==> (
        r matches Response::Serve { start, end, .. } && start == range.start && end == e))),
        range.start < size ==> (range.end matches Some(e) ==> (e >= size ==> (
        r matches Response::Serve { start, end, .. } && start == range.start && end == size - 1))),
        range.start >= size ==> r is Refuse,
        range.end matches Some(e) ==> (e < range.start ==> r is Refuse),
{
}

/// Without a range the whole file is served.
pub proof fn whole_file_is_served(r: Response, method: Seq<char>, range: RangeView, size: int)
    requires
        answers(r, method, range, Some(size)),
        range == (RangeView { given: false, start: 0, end: None }),
        size > 0,
    ensures
        r matches Response::Serve { start, end, .. } && start == 0 && end - start + 1 == size,
{
}

/// Two ranges of which the second begins behind the end of the first, and asks for
/// what is left, give the whole file and nothing twice.
pub proof fn following_ranges_meet(
    first: Response,
    second: Response,
    method: Seq<char>,
    from: int,
    to: int,
    size: int,
)
    requires
        0 <= from <= to < size - 1,
        answers(first, method, RangeView { given: true, start: from, end: Some(to) }, Some(size)),
        answers(second, method, RangeView { given: true, start: to + 1, end: None }, Some(size)),
    ensures
        first matches Response::Serve { start: a, end: b, .. } && (
        second matches Response::Serve { start: c, end: d, .. } && a == from && c == b + 1 && d + 1
            == size),
{
}

/// The head tells how many bytes follow it, and which ones where a range was asked
/// for; it begins with its status and ends with an empty line.
pub proof fn head_tells_what_follows(
    r: Response,
    method: Seq<char>,
    range: RangeView,
    size: int,
)
    requires
        answers(r, method, range, Some(size)),
    ensures
        match r {
            Response::Serve { head, start, end, body } => {
                let length = "Content-Length: "@ + dec(end - start + 1) + "\r\n"@;
                let part = "Content-Range: bytes "@ + dec(start as int) + "-"@ + dec(end as int)
                    + "/"@ + dec(size) + "\r\n"@;
                if range.given {
                    head@ == "HTTP/1.1 206 Partial Content\r\nAccept-Ranges: bytes\r\nContent-Type: application/octet-stream\r\n"@
                        + length + "Connection: close\r\n"@ + part + "\r\n"@
                } else {
                    head@ == "HTTP/1.1 200 OK\r\nAccept-Ranges: bytes\r\nContent-Type: application/octet-stream\r\n"@
                        + length + "Connection: close\r\n"@ + "\r\n"@
                }
            },
            Response::Refuse { head } => head@
                == "HTTP/1.1 416 Range Not Satisfiable\r\nContent-Range: bytes */"@ + dec(size)
                + "\r\nContent-Length: 0\r\nConnection: close\r\n\r\n"@,
        },
{
    reveal_strlit("HTTP/1.1 ");
    reveal_strlit("206 Partial Content");
    reveal_strlit("200 OK");
    reveal_strlit(
        "\r\nAccept-Ranges: bytes\r\nContent-Type: application/octet-stream\r\nContent-Length: ",
    );
    reveal_strlit(
        "HTTP/1.1 206 Partial Content\r\nAccept-Ranges: bytes\r\nContent-Type: application/octet-stream\r\n",
    );
    reveal_strlit(
        "HTTP/1.1 200 OK\r\nAccept-Ranges: bytes\r\nContent-Type: application/octet-stream\r\n",
    );
    reveal_strlit("Content-Length: ");
    reveal_strlit("\r\nConnection: close\r\n");
    reveal_strlit("Connection: close\r\n");
    reveal_strlit("\r\n");
    reveal_strlit("");
    if let Response::Serve { head, start, end, body } = r {
        let n = dec(end - start + 1);
        let length = "Content-Length: "@ + n + "\r\n"@;
        let part = "Content-Range: bytes "@ + dec(start as int) + "-"@ + dec(end as int) + "/"@
            + dec(size) + "\r\n"@;
        if range.given {
            assert("HTTP/1.1 "@ + "206 Partial Content"@
                + "\r\nAccept-Ranges: bytes\r\nContent-Type: application/octet-stream\r\nContent-Length: "@
                =~= "HTTP/1.1 206 Partial Content\r\nAccept-Ranges: bytes\r\nContent-Type: application/octet-stream\r\n"@
                + "Content-Length: "@);
            assert("\r\nConnection: close\r\n"@ =~= "\r\n"@ + "Connection: close\r\n"@);
            assert(head@
                =~= "HTTP/1.1 206 Partial Content\r\nAccept-Ranges: bytes\r\nContent-Type: application/octet-stream\r\n"@
                + length + "Connection: close\r\n"@ + part + "\r\n"@);
        } else {
            assert("HTTP/1.1 "@ + "200 OK"@
                + "\r\nAccept-Ranges: bytes\r\nContent-Type: application/octet-stream\r\nContent-Length: "@
                =~= "HTTP/1.1 200 OK\r\nAccept-Ranges: bytes\r\nContent-Type: application/octet-stream\r\n"@
                + "Content-Length: "@);
            assert("\r\nConnection: close\r\n"@ =~= "\r\n"@ + "Connection: close\r\n"@);
            assert(head@
                =~= "HTTP/1.1 200 OK\r\nAccept-Ranges: bytes\r\nContent-Type: application/octet-stream\r\n"@
                + length + "Connection: close\r\n"@ + "\r\n"@);
        }
    }
}

/// A body follows every head that serves, but the one that answers HEAD.
pub proof fn body_follows_all_but_head(
    r: Response,
    method: Seq<char>,
    range: RangeView,
    size: int,
)
    requires
        answers(r, method, range, Some(size)),
    ensures
        method == "HEAD"@ || method == "head"@ || method == "Head"@ ==> (
        r matches Response::Serve { body, .. } ==> !body),
        method.len() != 4 || method == "POST"@ ==> (r matches Response::Serve { body, .. } ==> body),
{
    reveal_strlit("HEAD");
    reveal_strlit("head");
    reveal_strlit("Head");
    reveal_strlit("POST");
    assert(ascii_lower("HEAD"@) =~= "head"@);
    assert(ascii_lower("head"@) =~= "head"@);
    assert(ascii_lower("Head"@) =~= "head"@);
    assert(ascii_lower("POST"@)[0] == 'p');
    assert("head"@[0] == 'h');
}

/// A job that does not exist is not found.
pub proof fn missing_job_is_not_found(r: Response, method: Seq<char>, range: RangeView)
    requires
        answers(r, method, range, None),
    ensures
        r matches Response::Refuse { head } && head@
            == "HTTP/1.1 404 Not Found\r\nContent-Length: 0\r\nConnection: close\r\n\r\n"@,
{
}

/// A block holds 256 KiB, but the last of a range holds what is left; sixteen may
/// be on their way, and a head may have 16 KiB.
pub proof fn blocks_have_their_size(off: int, end: int)
    requires
        off <= end,
    ensures
        end - off >= 262143 ==> block_len(off, end) == 262144,
        end - off < 262143 ==> off + block_len(off, end) == end + 1,
        READAHEAD == 16,
        HEAD_LIMIT == 16384,
{
}

proof fn lemma_break_is(s: Seq<char>, i: int, k: int)
    requires
        0 <= i <= k,
        k + 2 <= s.len(),
        s[k] == '\r',
        s[k + 1] == '\n',
        forall|j: int| i <= j < k ==> #[trigger] s[j] != '\r',
    ensures
        break_from(s, i) == k,
    decreases k - i,
{
    if i < k {
        lemma_break_is(s, i + 1, k);
    }
}

proof fn lemma_no_break(s: Seq<char>, i: int)
    requires
        0 <= i <= s.len(),
        !s.contains('\r'),
    ensures
        break_from(s, i) == s.len(),
    decreases s.len() - i,
{
    if i + 1 < s.len() {
        assert(s.contains(s[i]));
        lemma_no_break(s, i + 1);
    }
}

/// The lines of a head end at a carriage return and a line feed.
pub proof fn head_is_cut_at_its_line_breaks(line: Seq<char>, rest: Seq<char>)
    requires
        !line.contains('\r'),
    ensures
        head_lines(line + seq!['\r', '\n'] + rest) == seq![line] + head_lines(rest),
        head_lines(line) == seq![line],
{
    let s = line + seq!['\r', '\n'] + rest;
    let k = line.len() as int;
    assert(s[k] == '\r' && s[k + 1] == '\n');
    assert forall|j: int| 0 <= j < k implies #[trigger] s[j] != '\r' by {
        assert(s[j] == line[j]);
        assert(line.contains(line[j]));
    }
    lemma_break_is(s, 0, k);
    assert(s.take(k) =~= line);
    assert(s.skip(k + 2) =~= rest);
    lemma_no_break(line, 0);
}

proof fn lemma_no_white_has_no_breaks(s: Seq<char>)
    requires
        no_white(s),
    ensures
        !s.contains('\r'),
{
    if s.contains('\r') {
        let i = choose|i: int| 0 <= i < s.len() && s[i] == '\r';
        assert(is_white(s[i]));
    }
}

/// The head of a request for a part of a job's file.
pub open spec fn request_text(
    method: Seq<char>,
    job: Seq<char>,
    from: int,
    to: Seq<char>,
) -> Seq<char> {
    method + seq![' '] + (seq!['/'] + job) + seq![' '] + "HTTP/1.1"@ + seq!['\r', '\n'] + (
    "Range: bytes="@ + dec(from) + seq!['-'] + to) + seq!['\r', '\n'] + seq!['\r', '\n']
}

proof fn lemma_digits(n: int)
    requires
        n >= 0,
    ensures
        dec(n).len() > 0,
        no_white(dec(n)),
        !dec(n).contains('-'),
        !dec(n).contains('\r'),
        ascii_lower(dec(n)) == dec(n),
        is_trimmed(dec(n)),
{
    dec_is_its_value(n);
    let d = dec(n);
    assert forall|i: int| 0 <= i < d.len() implies !is_white(#[trigger] d[i]) && d[i] != '-' && d[i]
        != '\r' && lower(d[i]) == d[i] by {
        assert(is_digit(d[i]));
    }
    assert(ascii_lower(d) =~= d);
}

proof fn lemma_first_line(method: Seq<char>, job: Seq<char>)
    requires
        method.len() > 0,
        no_white(method),
        no_white(job),
        job.len() > 0 ==> job[0] != '/',
    ensures
        ({
            let line = method + seq![' '] + (seq!['/'] + job) + seq![' '] + "HTTP/1.1"@;
            &&& !line.contains('\r')
            &&& word_or(line, 0, ""@) == method
            &&& trim_start_of(word_or(line, 1, "/"@), '/', '/') == job
        }),
{
    reveal_strlit("HTTP/1.1");
    let path = seq!['/'] + job;
    let proto = "HTTP/1.1"@;
    let line = method + seq![' '] + path + seq![' '] + proto;
    assert(no_white(path)) by {
        assert forall|i: int| 0 <= i < path.len() implies !is_white(#[trigger] path[i]) by {
            if i > 0 {
                assert(path[i] == job[i - 1]);
            }
        }
    }
    assert(no_white(proto));
    lemma_no_white_has_no_breaks(method);
    lemma_no_white_has_no_breaks(path);
    lemma_no_white_has_no_breaks(proto);
    let tail = path + seq![' '] + proto;
    assert(line =~= method + seq![' '] + tail);
    words_are_parted_by_white_space(method, ' ', tail);
    words_are_parted_by_white_space(path, ' ', proto);
    words_are_parted_by_white_space(proto, ' ', Seq::empty());
    assert(words(line) =~= seq![method, path, proto]);
    assert(path.drop_first() =~= job);
    reveal_with_fuel(trim_start_of, 2);
    assert(!line.contains('\r')) by {
        if line.contains('\r') {
            let i = choose|i: int| 0 <= i < line.len() && line[i] == '\r';
            let m = method.len() as int;
            let p = path.len() as int;
            if i < m {
                assert(line[i] == method[i]);
                assert(method.contains('\r'));
            } else if i > m && i < m + 1 + p {
                assert(line[i] == path[i - m - 1]);
                assert(path.contains('\r'));
            } else if i > m + 1 + p {
                assert(line[i] == proto[i - m - p - 2]);
                assert(proto.contains('\r'));
            }
        }
    }
}

#[verifier::spinoff_prover]
#[verifier::rlimit(60)]
proof fn lemma_range_line(r: RangeView, from: int, to: Seq<char>)
    requires
        0 <= from <= u64::MAX,
        to.len() == 0 || (exists|n: int| 0 <= n <= u64::MAX && to == #[trigger] dec(n)),
    ensures
        ({
            let line = "Range: bytes="@ + dec(from) + seq!['-'] + to;
            let after = range_after(r, ascii_lower(line));
            &&& !line.contains('\r')
            &&& after.given
            &&& after.start == from
            &&& to.len() > 0 ==> after.end == u64_of(to)
            &&& to.len() == 0 ==> after.end == r.end
        }),
{
    reveal_strlit("Range: bytes=");
    reveal_strlit("range:");
    reveal_strlit("bytes=");
    lemma_digits(from);
    if to.len() > 0 {
        lemma_digits(choose|n: int| 0 <= n <= u64::MAX && to == #[trigger] dec(n));
    } else {
        assert(ascii_lower(to) =~= to);
    }
    let d = dec(from);
    let line = "Range: bytes="@ + d + seq!['-'] + to;
    let low = ascii_lower(line);
    let nums = d + seq!['-'] + to;
    let v = "bytes="@ + nums;
    assert(low =~= "range:"@ + seq![' '] + v) by {
        let want = "range:"@ + seq![' '] + v;
        assert(low.len() == want.len());
        assert forall|i: int| 0 <= i < low.len() implies low[i] == want[i] by {
            assert(low[i] == lower(line[i]));
            if i < 13 {
                assert(line[i] == "Range: bytes="@[i]);
                if i >= 7 {
                    assert(want[i] == "bytes="@[i - 7]);
                }
            } else if i < 13 + d.len() {
                assert(line[i] == d[i - 13]);
                assert(ascii_lower(d)[i - 13] == lower(d[i - 13]));
                assert(want[i] == d[i - 13]);
            } else if i > 13 + d.len() {
                let j = i - 14 - d.len();
                assert(line[i] == to[j]);
                assert(ascii_lower(to)[j] == lower(to[j]));
                assert(want[i] == to[j]);
            }
        }
    }
    assert(low.subrange(0, 6) =~= "range:"@);
    assert(low.skip(6) =~= seq![' '] + v + Seq::<char>::empty());
    assert(v[0] == 'b');
    assert(v.last() == if to.len() > 0 {
        to.last()
    } else {
        '-'
    });
    assert(all_white(seq![' ']));
    white_ends_are_trimmed(seq![' '], v, Seq::empty());
    assert(v.subrange(0, 6) =~= "bytes="@);
    assert(v.skip(6) =~= nums);
    text_is_cut_at_its_first_mark(d, '-', to);
    assert(!to.contains('-'));
    text_is_cut_at_its_first_mark(to, '-', Seq::empty());
    assert(split(nums, '-') =~= seq![d, to]);
    white_ends_are_trimmed(Seq::empty(), d, Seq::empty());
    white_ends_are_trimmed(Seq::empty(), to, Seq::empty());
    only_what_fits_is_read(from);
    assert(!line.contains('\r')) by {
        if line.contains('\r') {
            let i = choose|i: int| 0 <= i < line.len() && line[i] == '\r';
            if i < 13 {
                assert(line[i] == "Range: bytes="@[i]);
            } else if i < 13 + d.len() {
                assert(line[i] == d[i - 13]);
                assert(d.contains('\r'));
            } else if i > 13 + d.len() {
                assert(line[i] == to[i - 14 - d.len()]);
                assert(to.contains('\r'));
            }
        }
    }
}

/// A request that asks for a part of a job's file is read as it was written: its
/// method, its job, the byte it begins with, and the byte it ends with where it
/// names one.
pub proof fn written_request_is_read(
    method: Seq<char>,
    job: Seq<char>,
    from: int,
    to: Option<int>,
)
    requires
        method.len() > 0,
        no_white(method),
        no_white(job),
        job.len() > 0 ==> job[0] != '/',
        0 <= from <= u64::MAX,
        to matches Some(e) ==> 0 <= e <= u64::MAX,
    ensures
        ({
            let head = request_text(
                method,
                job,
                from,
                match to {
                    Some(e) => dec(e),
                    None => Seq::empty(),
                },
            );
            &&& method_of(head) == method
            &&& job_of(head) == job
            &&& range_of(head) == (RangeView { given: true, start: from, end: to })
        }),
{
    let t = match to {
        Some(e) => dec(e),
        None => Seq::empty(),
    };
    let head = request_text(method, job, from, t);
    let first = method + seq![' '] + (seq!['/'] + job) + seq![' '] + "HTTP/1.1"@;
    let second = "Range: bytes="@ + dec(from) + seq!['-'] + t;
    let none = RangeView { given: false, start: 0, end: None };
    if let Some(e) = to {
        lemma_digits(e);
        only_what_fits_is_read(e);
    }
    lemma_first_line(method, job);
    lemma_range_line(none, from, t);
    let empty = Seq::<char>::empty();
    let crlf = seq!['\r', '\n'];
    assert(crlf =~= empty + crlf + empty);
    assert(head =~= first + crlf + (second + crlf + crlf));
    head_is_cut_at_its_line_breaks(first, second + crlf + crlf);
    head_is_cut_at_its_line_breaks(second, crlf);
    head_is_cut_at_its_line_breaks(empty, empty);
    let ls = head_lines(head);
    assert(ls =~= seq![first, second, empty, empty]);
    let rest = ls.skip(1);
    assert(rest =~= seq![second, empty, empty]);
    assert(rest.drop_last() =~= seq![second, empty]);
    assert(rest.drop_last().drop_last() =~= seq![second]);
    assert(rest.drop_last().drop_last().drop_last() =~= Seq::<Seq<char>>::empty());
    reveal_with_fuel(range_in, 5);
    reveal_strlit("range:");
    assert(ascii_lower(empty) =~= empty);
}

/// The whole way of a request: what ffmpeg asks for of a file of `size` bytes is
/// what it is served.
pub proof fn request_is_served_as_written(
    r: Response,
    job: Seq<char>,
    from: int,
    to: Option<int>,
    size: int,
)
    requires
        no_white(job),
        job.len() > 0 ==> job[0] != '/',
        0 <= from < size <= u64::MAX,
        to matches Some(e) ==> from <= e <= u64::MAX,
        answers(
            r,
            "GET"@,
            range_of(
                request_text(
                    "GET"@,
                    job,
                    from,
                    match to {
                        Some(e) => dec(e),
                        None => Seq::empty(),
                    },
                ),
            ),
            Some(size),
        ),
    ensures
        r matches Response::Serve { start, end, body, .. } && body && start == from && end < size
            && match to {
            None => end == size - 1,
            Some(e) => end <= e && (end == e || end == size - 1),
        },
{
    reveal_strlit("GET");
    reveal_strlit("head");
    assert(no_white("GET"@));
    written_request_is_read("GET"@, job, from, to);
    assert(ascii_lower("GET"@).len() == 3);
}

/// A head whose first line is empty asks for nothing by no method; leading slashes of a
/// path do not count.
pub proof fn empty_request_asks_for_nothing(head: Seq<char>, job: Seq<char>, n: nat)
    requires
        job.len() > 0 ==> job[0] != '/' && job.last() != '/',
    ensures
        words(head_lines(head)[0]).len() == 0 ==> method_of(head) == ""@ && job_of(head).len() == 0,
        words(head_lines(head)[0]).len() == 1 ==> job_of(head).len() == 0,
        words(head_lines(head)[0]).len() >= 2 && words(head_lines(head)[0])[1] == Seq::new(
            n,
            |i: int| '/',
        ) + job ==> job_of(head) == job,
        words(head_lines(head)[0]).len() >= 1 ==> method_of(head) == words(head_lines(head)[0])[0],
{
    reveal_strlit("/");
    reveal_with_fuel(trim_start_of, 2);
    lemma_slashes_go(n, job);
}

proof fn lemma_slashes_go(n: nat, job: Seq<char>)
    requires
        job.len() > 0 ==> job[0] != '/',
    ensures
        trim_start_of(Seq::new(n, |i: int| '/') + job, '/', '/') == job,
    decreases n,
{
    let s = Seq::new(n, |i: int| '/') + job;
    if n > 0 {
        lemma_slashes_go((n - 1) as nat, job);
        assert(s.drop_first() =~= Seq::new((n - 1) as nat, |i: int| '/') + job);
    } else {
        assert(s =~= job);
    }
}

} // verus!
