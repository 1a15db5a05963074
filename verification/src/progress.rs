//! What ffmpeg writes while it runs: progress lines and everything around them.
use vstd::prelude::*;
use vstd::string::*;
use crate::decimal::{
    decimal_or, is_worth, quantity_or, whole, whole_numbers_are_read, zero, Decimal, Quantity,
};
use crate::format::{
    clock_of, eta_of, fmt_bitrate, fmt_eta, fmt_hms, fmt_size, hms, hms_of, parse_clock,
    percent_done, percent_of, rate_of, share_is_the_part_that_is_done, size_of_kib,
    time_left_is_shown,
};
use crate::number::{dec, dec_is_its_value};
use crate::proto::D2C;
use crate::text::{
    char_texts, chars_are, chars_of, contains_text, cut_end, decoded, has_text, split_once,
    split_once_chars, string_of, sub_chars, text_is_cut_at_its_first_mark, text_of_bytes,
    text_stands_where_it_was_put, trim_end_of, words, words_of,
};

verus! {

// ---------------------------------------------------------------- progress lines
/// A progress line, ready to be shown.
pub struct Progress {
    pub frame: String,
    pub fps: String,
    pub q: String,
    pub size: String,
    pub time: String,
    pub bitrate: String,
    pub speed: String,
    /// The position, in seconds.
    pub time_sec: Decimal,
    /// How many seconds of video go by in one second.
    pub speed_val: Decimal,
}

/// The contents of a [`Progress`].
#[verifier::ext_equal]
pub struct ProgressView {
    pub frame: Seq<char>,
    pub fps: Seq<char>,
    pub q: Seq<char>,
    pub size: Seq<char>,
    pub time: Seq<char>,
    pub bitrate: Seq<char>,
    pub speed: Seq<char>,
    pub time_sec: Quantity,
    pub speed_val: Quantity,
}

impl Progress {
    pub open spec fn view(&self) -> ProgressView {
        ProgressView {
            frame: self.frame@,
            fps: self.fps@,
            q: self.q@,
            size: self.size@,
            time: self.time@,
            bitrate: self.bitrate@,
            speed: self.speed@,
            time_sec: self.time_sec@,
            speed_val: self.speed_val@,
        }
    }

    pub open spec fn wf(&self) -> bool {
        self.time_sec.wf() && self.speed_val.wf()
    }

    /// A copy.
    pub fn dup(&self) -> (r: Progress)
        requires
            self.wf(),
        ensures
            r.wf(),
            r@ == self@,
    {
        Progress {
            frame: self.frame.clone(),
            fps: self.fps.clone(),
            q: self.q.clone(),
            size: self.size.clone(),
            time: self.time.clone(),
            bitrate: self.bitrate.clone(),
            speed: self.speed.clone(),
            time_sec: self.time_sec.dup(),
            speed_val: self.speed_val.dup(),
        }
    }
}

/// Whether a line tells about progress.
pub open spec fn is_progress(line: Seq<char>) -> bool {
    contains_text(line, "frame="@) && contains_text(line, "speed="@)
}

/// The keys and values among some words, from the word at `i` on. A word that
/// ends in `=` has the next word for its value.
pub open spec fn pairs(ws: Seq<Seq<char>>, i: int) -> Seq<(Seq<char>, Seq<char>)>
    decreases ws.len() - i,
{
    if i < 0 || i >= ws.len() {
        Seq::empty()
    } else {
        match split_once(ws[i], '=') {
            Some((k, v)) => if v.len() > 0 {
                seq![(k, v)] + pairs(ws, i + 1)
            } else if i + 1 < ws.len() {
                seq![(k, ws[i + 1])] + pairs(ws, i + 2)
            } else {
                seq![(k, ""@)]
            },
            None => pairs(ws, i + 1),
        }
    }
}

/// The last value of a key; empty where there is none.
pub open spec fn last_value(ps: Seq<(Seq<char>, Seq<char>)>, key: Seq<char>) -> Seq<char>
    decreases ps.len(),
{
    if ps.len() == 0 {
        ""@
    } else if ps.last().0 == key {
        ps.last().1
    } else {
        last_value(ps.drop_last(), key)
    }
}

/// The value of a key on a progress line.
pub open spec fn field(line: Seq<char>, key: Seq<char>) -> Seq<char> {
    last_value(pairs(words(line), 0), key)
}

/// The speed factor in a text such as `1.25x`.
pub open spec fn speed_of(speed: Seq<char>) -> Quantity {
    quantity_or(trim_end_of(speed, 'x'), zero())
}

/// What a progress line says.
pub open spec fn progress_of(line: Seq<char>) -> Option<ProgressView> {
    if !is_progress(line) {
        None
    } else {
        let speed = field(line, "speed"@);
        let time = clock_of(field(line, "time"@));
        Some(
            ProgressView {
                frame: field(line, "frame"@),
                fps: field(line, "fps"@),
                q: field(line, "q"@),
                size: size_of_kib(field(line, "size"@)),
                time: hms_of(time),
                bitrate: rate_of(field(line, "bitrate"@)),
                speed: if speed.len() == 0 {
                    "—"@
                } else {
                    speed
                },
                time_sec: time,
                speed_val: speed_of(speed),
            },
        )
    }
}

/// The texts of some pairs.
pub open spec fn pair_texts(ps: Seq<(Vec<char>, Vec<char>)>) -> Seq<(Seq<char>, Seq<char>)> {
    Seq::new(ps.len(), |i: int| (ps[i].0@, ps[i].1@))
}

fn read_pairs(line: &[char]) -> (r: Vec<(Vec<char>, Vec<char>)>)
    ensures
        pair_texts(r@) == pairs(words(line@), 0),
{
    let ws = words_of(line);
    let ghost all = char_texts(ws@);
    let mut r: Vec<(Vec<char>, Vec<char>)> = Vec::new();
    let mut i: usize = 0;
    assert(pair_texts(r@) + pairs(all, 0) =~= pairs(all, 0));
    let n = ws.len();
    while i < n
        invariant
            n == ws@.len(),
            all == char_texts(ws@),
            pair_texts(r@) + pairs(all, i as int) == pairs(all, 0),
        decreases n - i,
    {
        assert(all[i as int] == ws@[i as int]@);
        let ghost before = pair_texts(r@);
        match split_once_chars(ws[i].as_slice(), '=') {
            None => {
                i += 1;
            },
            Some((k, v)) => {
                if v.len() > 0 {
                    let ghost p = (k@, v@);
                    r.push((k, v));
                    assert(pair_texts(r@) =~= before.push(p));
                    assert(before.push(p) + pairs(all, i + 1) =~= before + (seq![p] + pairs(
                        all,
                        i + 1,
                    )));
                    i += 1;
                } else {
                    let v = if i + 1 < n {
                        let w = &ws[i + 1];
                        assert(all[i + 1] == w@);
                        sub_chars(w.as_slice(), 0, w.len())
                    } else {
                        chars_of("")
                    };
                    let ghost p = (k@, v@);
                    assert(i + 1 < n ==> v@ =~= all[i + 1]);
                    r.push((k, v));
                    assert(pair_texts(r@) =~= before.push(p));
                    if i + 1 < n {
                        assert(before.push(p) + pairs(all, i + 2) =~= before + (seq![p] + pairs(
                            all,
                            i + 2,
                        )));
                        i += 2;
                    } else {
                        assert(before.push(p) + pairs(all, i + 1) =~= before + seq![p]);
                        i += 1;
                    }
                }
            },
        }
    }
    assert(pair_texts(r@) + pairs(all, i as int) =~= pair_texts(r@));
    r
}

fn get(ps: &Vec<(Vec<char>, Vec<char>)>, key: &str) -> (r: String)
    ensures
        r@ == last_value(pair_texts(ps@), key@),
{
    let ghost all = pair_texts(ps@);
    let mut i: usize = ps.len();
    assert(all.take(i as int) =~= all);
    while i > 0
        invariant
            i <= ps@.len(),
            all == pair_texts(ps@),
            last_value(all, key@) == last_value(all.take(i as int), key@),
        decreases i,
    {
        assert(all.take(i as int).last() == (ps@[i - 1].0@, ps@[i - 1].1@));
        assert(all.take(i as int).drop_last() =~= all.take(i - 1));
        if chars_are(ps[i - 1].0.as_slice(), key) {
            return string_of(ps[i - 1].1.as_slice());
        }
        i -= 1;
    }
    "".to_string()
}

/// Reads the speed factor.
pub fn read_speed(speed: &str) -> (r: Decimal)
    ensures
        r.wf(),
        r@ == speed_of(speed@),
{
    let c = chars_of(speed);
    let t = cut_end(c.as_slice(), 'x');
    decimal_or(t.as_slice(), Decimal::zero())
}

fn read_progress(line: &[char]) -> (r: Option<Progress>)
    ensures
        match r {
            Some(p) => p.wf() && progress_of(line@) == Some(p@),
            None => progress_of(line@) is None,
        },
{
    if !has_text(line, "frame=") || !has_text(line, "speed=") {
        return None;
    }
    let ps = read_pairs(line);
    let time_sec = parse_clock(get(&ps, "time").as_str());
    let speed = get(&ps, "speed");
    let speed_val = read_speed(speed.as_str());
    let none = chars_of(speed.as_str()).len() == 0;
    Some(
        Progress {
            frame: get(&ps, "frame"),
            fps: get(&ps, "fps"),
            q: get(&ps, "q"),
            size: fmt_size(get(&ps, "size").as_str()),
            time: fmt_hms(&time_sec),
            bitrate: fmt_bitrate(get(&ps, "bitrate").as_str()),
            speed: if none {
                "—".to_string()
            } else {
                speed
            },
            time_sec,
            speed_val,
        },
    )
}

/// Reads a progress line ("frame=.. fps=.. q=.. size=.. time=.. bitrate=..
/// speed=.."); nothing where the line is another.
pub fn parse_progress(line: &str) -> (r: Option<Progress>)
    ensures
        match r {
            Some(p) => p.wf() && progress_of(line@) == Some(p@),
            None => progress_of(line@) is None,
        },
{
    let c = chars_of(line);
    read_progress(c.as_slice())
}

/// A progress line, the time that is left, and how much is done, in percent.
pub struct Prog {
    pub line: Progress,
    pub eta: String,
    pub percent: Decimal,
}

/// Whether a report is that of a progress line, for a duration.
pub open spec fn is_report(p: Prog, line: ProgressView, dur: Quantity) -> bool {
    &&& p.line.wf()
    &&& p.line@ == line
    &&& p.eta@ == eta_of(dur, line.time_sec, line.speed_val)
    &&& p.percent.wf()
    &&& p.percent@ == percent_of(line.time_sec, dur)
}

/// Reads a progress line for a file of a known duration.
pub fn parse_report(line: &str, dur: &Decimal) -> (r: Option<Prog>)
    requires
        dur.wf(),
    ensures
        match r {
            Some(p) => progress_of(line@) matches Some(v) && is_report(p, v, dur@),
            None => progress_of(line@) is None,
        },
{
    let c = chars_of(line);
    read_report(c.as_slice(), dur)
}

fn read_report(line: &[char], dur: &Decimal) -> (r: Option<Prog>)
    requires
        dur.wf(),
    ensures
        match r {
            Some(p) => progress_of(line@) matches Some(v) && is_report(p, v, dur@),
            None => progress_of(line@) is None,
        },
{
    match read_progress(line) {
        Some(line) => {
            let eta = fmt_eta(dur, &line.time_sec, &line.speed_val);
            let percent = percent_done(&line.time_sec, dur);
            Some(Prog { line, eta, percent })
        },
        None => None,
    }
}

/// Whether a message tells a client of a report.
pub open spec fn tells_report(m: D2C, job_id: Seq<char>, p: Prog) -> bool {
    match m {
        D2C::Progress {
            job_id: id,
            frame,
            fps,
            q,
            size,
            time,
            bitrate,
            speed,
            time_sec,
            eta,
            percent,
        } => {
            &&& id@ == job_id
            &&& frame@ == p.line@.frame
            &&& fps@ == p.line@.fps
            &&& q@ == p.line@.q
            &&& size@ == p.line@.size
            &&& time@ == p.line@.time
            &&& bitrate@ == p.line@.bitrate
            &&& speed@ == p.line@.speed
            &&& time_sec@ == p.line@.time_sec
            &&& eta@ == p.eta@
            &&& percent@ == p.percent@
        },
        _ => false,
    }
}

/// The message that tells a client of a report.
pub fn progress_message(job_id: &str, p: Prog) -> (r: D2C)
    ensures
        tells_report(r, job_id@, p),
{
    D2C::Progress {
        job_id: job_id.to_string(),
        frame: p.line.frame,
        fps: p.line.fps,
        q: p.line.q,
        size: p.line.size,
        time: p.line.time,
        bitrate: p.line.bitrate,
        speed: p.line.speed,
        time_sec: p.line.time_sec,
        eta: p.eta,
        percent: p.percent,
    }
}

// ---------------------------------------------------------------- the daemon's reader
/// Reads progress from the bytes that ffmpeg writes, for a job of a known
/// duration. Bytes are taken as characters one by one.
pub struct Pump {
    cur: Vec<char>,
    escape: Escape,
}

/// Where in an escape sequence a [`Pump`] is.
#[derive(Clone, Copy, PartialEq, Eq, Structural, Debug)]
pub enum Escape {
    /// In none.
    Outside,
    /// Right behind the escape byte.
    Begun,
    /// On the way to the final byte.
    Inside,
}

/// The state of a [`Pump`].
#[verifier::ext_equal]
pub struct PumpView {
    pub cur: Seq<char>,
    pub escape: Escape,
}

/// Whether a byte ends a line.
pub open spec fn ends_line(b: u8) -> bool {
    b == 13 || b == 10
}

/// Where a byte leads within an escape sequence. It goes on up to a final byte;
/// a bracket right behind the escape byte is part of how it begins.
pub open spec fn escaped(e: Escape, b: u8) -> Escape {
    if b == 0x1b {
        Escape::Begun
    } else if e == Escape::Begun && b == 0x5b {
        Escape::Inside
    } else if 0x40 <= b <= 0x7e {
        Escape::Outside
    } else {
        Escape::Inside
    }
}

/// The state after one more byte. Escape sequences are dropped.
pub open spec fn pumped(p: PumpView, b: u8) -> PumpView {
    if p.escape != Escape::Outside || b == 0x1b {
        PumpView { escape: escaped(p.escape, b), ..p }
    } else if ends_line(b) {
        PumpView { cur: Seq::empty(), ..p }
    } else {
        PumpView { cur: p.cur.push(b as char), ..p }
    }
}

/// The state after some bytes.
pub open spec fn pumped_all(p: PumpView, bs: Seq<u8>) -> PumpView
    decreases bs.len(),
{
    if bs.len() == 0 {
        p
    } else {
        pumped(pumped_all(p, bs.drop_last()), bs.last())
    }
}

/// The progress lines that some bytes complete.
pub open spec fn reports(p: PumpView, bs: Seq<u8>) -> Seq<ProgressView>
    decreases bs.len(),
{
    if bs.len() == 0 {
        Seq::empty()
    } else {
        let before = pumped_all(p, bs.drop_last());
        let rest = reports(p, bs.drop_last());
        if before.escape == Escape::Outside && ends_line(bs.last()) {
            match progress_of(before.cur) {
                Some(v) => rest.push(v),
                None => rest,
            }
        } else {
            rest
        }
    }
}

/// Whether reports are those of some progress lines.
pub open spec fn reported(r: Seq<Prog>, lines: Seq<ProgressView>, dur: Quantity) -> bool {
    &&& r.len() == lines.len()
    &&& forall|i: int|
        0 <= i < r.len() ==> is_report(#[trigger] r[i], lines[i], dur)
}

impl Pump {
    pub closed spec fn view(&self) -> PumpView {
        PumpView { cur: self.cur@, escape: self.escape }
    }

    /// Before anything is read.
    pub fn new() -> (r: Pump)
        ensures
            r@ == (PumpView { cur: Seq::empty(), escape: Escape::Outside }),
    {
        Pump { cur: Vec::new(), escape: Escape::Outside }
    }

    /// Takes bytes in and gives the reports they complete.
    pub fn feed(&mut self, bytes: &[u8], dur: &Decimal) -> (r: Vec<Prog>)
        requires
            dur.wf(),
        ensures
            final(self)@ == pumped_all(old(self)@, bytes@),
            reported(r@, reports(old(self)@, bytes@), dur@),
    {
        let ghost p0 = self@;
        let mut r: Vec<Prog> = Vec::new();
        let mut i: usize = 0;
        assert(bytes@.take(0) =~= Seq::empty());
        while i < bytes.len()
            invariant
                i <= bytes@.len(),
                dur.wf(),
                self@ == pumped_all(p0, bytes@.take(i as int)),
                reported(r@, reports(p0, bytes@.take(i as int)), dur@),
            decreases bytes@.len() - i,
        {
            let b = bytes[i];
            let ghost next = bytes@.take(i + 1);
            assert(next.drop_last() =~= bytes@.take(i as int));
            assert(next.last() == b);
            if b == 0x1b {
                self.escape = Escape::Begun;
            } else if self.escape != Escape::Outside {
                self.escape = if self.escape == Escape::Begun && b == 0x5b {
                    Escape::Inside
                } else if b >= 0x40 && b <= 0x7e {
                    Escape::Outside
                } else {
                    Escape::Inside
                };
            } else if b == 13 || b == 10 {
                match read_report(self.cur.as_slice(), dur) {
                    Some(p) => {
                        r.push(p);
                    },
                    None => {},
                }
                self.cur = Vec::new();
            } else {
                self.cur.push(b as char);
            }
            i += 1;
        }
        assert(bytes@.take(bytes@.len() as int) =~= bytes@);
        r
    }
}

// ---------------------------------------------------------------- the terminal
/// Where in an escape sequence the terminal is.
#[derive(Clone, Copy, PartialEq, Eq, Structural, Debug)]
pub enum Ansi {
    Normal,
    Esc,
    Csi,
    Osc,
}

/// A small terminal: it keeps what a program writes as text, drops escape
/// sequences, and lets a carriage return overwrite the line.
pub struct Screen {
    committed: Vec<char>,
    line: Vec<char>,
    cursor: usize,
    state: Ansi,
    progress: Option<Progress>,
}

/// The state of a [`Screen`].
#[verifier::ext_equal]
pub struct ScreenView {
    /// The lines that are complete.
    pub committed: Seq<char>,
    /// The line being written.
    pub line: Seq<char>,
    /// Where on the line the next character goes.
    pub cursor: int,
    pub state: Ansi,
    /// The last progress that was reported.
    pub progress: Option<ProgressView>,
}

/// The progress after a line: the line's, or what it was before.
pub open spec fn progress_after(p: Option<ProgressView>, line: Seq<char>) -> Option<ProgressView> {
    match progress_of(line) {
        Some(v) => Some(v),
        None => p,
    }
}

/// A line with a character put at the cursor.
pub open spec fn typed(line: Seq<char>, cursor: int, c: char) -> Seq<char> {
    if cursor < line.len() {
        line.update(cursor, c)
    } else {
        line.push(c)
    }
}

/// The state after one more character.
pub open spec fn shown_char(s: ScreenView, c: char) -> ScreenView {
    match s.state {
        Ansi::Normal => if c == '\u{1b}' {
            ScreenView { state: Ansi::Esc, ..s }
        } else if c == '\n' {
            ScreenView {
                committed: s.committed + s.line + seq!['\n'],
                line: Seq::empty(),
                cursor: 0,
                progress: progress_after(s.progress, s.line),
                ..s
            }
        } else if c == '\r' {
            ScreenView { cursor: 0, ..s }
        } else if c < ' ' && c != '\t' {
            s
        } else {
            ScreenView { line: typed(s.line, s.cursor, c), cursor: s.cursor + 1, ..s }
        },
        Ansi::Esc => ScreenView {
            state: if c == '[' {
                Ansi::Csi
            } else if c == ']' {
                Ansi::Osc
            } else {
                Ansi::Normal
            },
            ..s
        },
        Ansi::Csi => if c == 'K' {
            ScreenView { line: s.line.take(s.cursor), state: Ansi::Normal, ..s }
        } else if '@' <= c <= '~' {
            ScreenView { state: Ansi::Normal, ..s }
        } else {
            s
        },
        Ansi::Osc => if c == '\u{7}' {
            ScreenView { state: Ansi::Normal, ..s }
        } else if c == '\u{1b}' {
            ScreenView { state: Ansi::Esc, ..s }
        } else {
            s
        },
    }
}

/// The state after some characters.
pub open spec fn shown_chars(s: ScreenView, cs: Seq<char>) -> ScreenView
    decreases cs.len(),
{
    if cs.len() == 0 {
        s
    } else {
        shown_char(shown_chars(s, cs.drop_last()), cs.last())
    }
}

/// How many bytes a character takes in UTF-8.
pub open spec fn char_width(c: char) -> int {
    if (c as int) < 0x80 {
        1
    } else if (c as int) < 0x800 {
        2
    } else if (c as int) < 0x10000 {
        3
    } else {
        4
    }
}

/// How many bytes a text takes in UTF-8.
pub open spec fn byte_len(s: Seq<char>) -> int
    decreases s.len(),
{
    if s.len() == 0 {
        0
    } else {
        byte_len(s.drop_last()) + char_width(s.last())
    }
}

/// How many characters from `i` on must go before `n` bytes have gone.
pub open spec fn cut_at(s: Seq<char>, n: int, i: int) -> int
    decreases s.len() - i,
{
    if i < 0 || i >= s.len() || byte_len(s.take(i)) >= n {
        i
    } else {
        cut_at(s, n, i + 1)
    }
}

/// The text that is kept: all of it up to 200,000 bytes; of more, the last
/// 150,000, without breaking a character.
pub open spec fn kept(s: Seq<char>) -> Seq<char> {
    if byte_len(s) > 200000 {
        s.skip(cut_at(s, byte_len(s) - 150000, 0))
    } else {
        s
    }
}

/// The state after a piece of output.
pub open spec fn shown_chunk(s: ScreenView, cs: Seq<char>) -> ScreenView {
    let t = shown_chars(s, cs);
    ScreenView {
        committed: kept(t.committed),
        progress: progress_after(t.progress, t.line),
        ..t
    }
}

fn width(c: char) -> (r: u8)
    ensures
        r == char_width(c),
{
    if (c as u32) < 0x80 {
        1
    } else if (c as u32) < 0x800 {
        2
    } else if (c as u32) < 0x10000 {
        3
    } else {
        4
    }
}

fn trim_log(s: &mut Vec<char>)
    ensures
        final(s)@ == kept(old(s)@),
{
    let mut total: u128 = 0;
    let mut i: usize = 0;
    let n = s.len();
    while i < n
        invariant
            i <= n == s@.len(),
            total == byte_len(s@.take(i as int)),
            total <= 4 * i,
            s@ == old(s)@,
        decreases n - i,
    {
        assert(s@.take(i + 1).drop_last() =~= s@.take(i as int));
        total = total + width(s[i]) as u128;
        i += 1;
    }
    assert(s@.take(n as int) =~= s@);
    if total <= 200000 {
        return ;
    }
    let goal: u128 = total - 150000;
    let mut gone: u128 = 0;
    let mut k: usize = 0;
    while k < n && gone < goal
        invariant
            k <= n == s@.len(),
            s@ == old(s)@,
            gone == byte_len(s@.take(k as int)),
            gone <= 4 * k,
            cut_at(s@, goal as int, 0) == cut_at(s@, goal as int, k as int),
        decreases n - k,
    {
        assert(s@.take(k + 1).drop_last() =~= s@.take(k as int));
        gone = gone + width(s[k]) as u128;
        k += 1;
    }
    let tail = sub_chars(s.as_slice(), k, n);
    assert(tail@ =~= s@.skip(k as int));
    *s = tail;
}

impl Screen {
    pub closed spec fn view(&self) -> ScreenView {
        ScreenView {
            committed: self.committed@,
            line: self.line@,
            cursor: self.cursor as int,
            state: self.state,
            progress: match self.progress {
                Some(p) => Some(p@),
                None => None,
            },
        }
    }

    /// The cursor never stands beyond the end of the line.
    pub closed spec fn wf(&self) -> bool {
        &&& self.cursor <= self.line@.len()
        &&& self.progress matches Some(p) ==> p.wf()
    }

    /// An empty screen.
    pub fn new() -> (r: Screen)
        ensures
            r.wf(),
            r@ == (ScreenView {
                committed: Seq::empty(),
                line: Seq::empty(),
                cursor: 0,
                state: Ansi::Normal,
                progress: None,
            }),
    {
        Screen {
            committed: Vec::new(),
            line: Vec::new(),
            cursor: 0,
            state: Ansi::Normal,
            progress: None,
        }
    }

    fn note_progress(&mut self)
        requires
            old(self).wf(),
        ensures
            final(self).wf(),
            final(self)@ == (ScreenView {
                progress: progress_after(old(self)@.progress, old(self)@.line),
                ..old(self)@
            }),
    {
        match read_progress(self.line.as_slice()) {
            Some(p) => {
                self.progress = Some(p);
            },
            None => {},
        }
    }

    fn show(&mut self, c: char)
        requires
            old(self).wf(),
        ensures
            final(self).wf(),
            final(self)@ == shown_char(old(self)@, c),
    {
        match self.state {
            Ansi::Normal => if c == '\u{1b}' {
                self.state = Ansi::Esc;
            } else if c == '\n' {
                self.note_progress();
                self.committed.extend_from_slice(self.line.as_slice());
                self.committed.push('\n');
                self.line = Vec::new();
                self.cursor = 0;
                assert(self@.committed =~= old(self)@.committed + old(self)@.line + seq!['\n']);
            } else if c == '\r' {
                self.cursor = 0;
            } else if c < ' ' && c != '\t' {
            } else {
                if self.cursor < self.line.len() {
                    self.line.set(self.cursor, c);
                } else {
                    self.line.push(c);
                }
                let len = self.line.len();
                assert(self.cursor < len);
                self.cursor = self.cursor + 1;
                assert(self@.line =~= typed(old(self)@.line, old(self)@.cursor, c));
            },
            Ansi::Esc => {
                self.state =
                if c == '[' {
                    Ansi::Csi
                } else if c == ']' {
                    Ansi::Osc
                } else {
                    Ansi::Normal
                };
            },
            Ansi::Csi => if c == 'K' {
                self.line.truncate(self.cursor);
                self.state = Ansi::Normal;
                assert(self@.line =~= old(self)@.line.take(old(self)@.cursor));
            } else if c >= '@' && c <= '~' {
                self.state = Ansi::Normal;
            },
            Ansi::Osc => if c == '\u{7}' {
                self.state = Ansi::Normal;
            } else if c == '\u{1b}' {
                self.state = Ansi::Esc;
            },
        }
    }

    /// Takes in a piece of text that the program wrote.
    pub fn feed_text(&mut self, chunk: &str)
        requires
            old(self).wf(),
        ensures
            final(self).wf(),
            final(self)@ == shown_chunk(old(self)@, chunk@),
    {
        let cs = chars_of(chunk);
        let ghost s0 = self@;
        let mut i: usize = 0;
        assert(cs@.take(0) =~= Seq::empty());
        while i < cs.len()
            invariant
                i <= cs@.len(),
                self.wf(),
                self@ == shown_chars(s0, cs@.take(i as int)),
            decreases cs@.len() - i,
        {
            assert(cs@.take(i + 1).drop_last() =~= cs@.take(i as int));
            self.show(cs[i]);
            i += 1;
        }
        assert(cs@.take(cs@.len() as int) =~= cs@);
        trim_log(&mut self.committed);
        self.note_progress();
    }

    /// Takes in bytes that the program wrote.
    pub fn feed(&mut self, chunk: &[u8])
        requires
            old(self).wf(),
        ensures
            final(self).wf(),
            final(self)@ == shown_chunk(old(self)@, decoded(chunk@)),
    {
        let t = text_of_bytes(chunk);
        self.feed_text(t.as_str());
    }

    /// Everything on the screen.
    pub fn text(&self) -> (r: String)
        ensures
            r@ == self@.committed + self@.line,
    {
        let mut v = sub_chars(self.committed.as_slice(), 0, self.committed.len());
        v.extend_from_slice(self.line.as_slice());
        assert(v@ =~= self@.committed + self@.line);
        string_of(v.as_slice())
    }

    /// The last progress that was reported.
    pub fn progress(&self) -> (r: &Option<Progress>)
        requires
            self.wf(),
        ensures
            match r {
                Some(p) => p.wf() && self@.progress == Some(p@),
                None => self@.progress is None,
            },
    {
        &self.progress
    }
}

// ---------------------------------------------------------------- laws
/// It makes no difference to a screen how its input is cut into pieces, but for
/// when the log is trimmed and the progress noted.
pub proof fn pieces_make_no_difference(s: ScreenView, a: Seq<char>, b: Seq<char>)
    ensures
        shown_chars(s, a + b) == shown_chars(shown_chars(s, a), b),
    decreases b.len(),
{
    if b.len() == 0 {
        assert(a + b =~= a);
    } else {
        pieces_make_no_difference(s, a, b.drop_last());
        assert((a + b).drop_last() =~= a + b.drop_last());
        assert((a + b).last() == b.last());
    }
}

/// The cursor stays on the line, whatever is written.
pub proof fn cursor_stays_on_the_line(s: ScreenView, cs: Seq<char>)
    requires
        0 <= s.cursor <= s.line.len(),
    ensures
        0 <= shown_chars(s, cs).cursor <= shown_chars(s, cs).line.len(),
    decreases cs.len(),
{
    if cs.len() > 0 {
        cursor_stays_on_the_line(s, cs.drop_last());
    }
}

/// The daemon's reader gives the same reports however its input is cut up.
pub proof fn reports_do_not_depend_on_pieces(p: PumpView, a: Seq<u8>, b: Seq<u8>)
    ensures
        pumped_all(p, a + b) == pumped_all(pumped_all(p, a), b),
        reports(p, a + b) == reports(p, a) + reports(pumped_all(p, a), b),
    decreases b.len(),
{
    if b.len() == 0 {
        assert(a + b =~= a);
        assert(reports(p, a) + reports(pumped_all(p, a), b) =~= reports(p, a));
    } else {
        reports_do_not_depend_on_pieces(p, a, b.drop_last());
        assert((a + b).drop_last() =~= a + b.drop_last());
        assert((a + b).last() == b.last());
        assert(reports(p, a + b) =~= reports(p, a) + reports(pumped_all(p, a), b));
    }
}

proof fn lemma_byte_len(s: Seq<char>)
    ensures
        byte_len(s) >= 0,
    decreases s.len(),
{
    if s.len() > 0 {
        lemma_byte_len(s.drop_last());
    }
}

proof fn lemma_byte_len_split(s: Seq<char>, k: int)
    requires
        0 <= k <= s.len(),
    ensures
        byte_len(s) == byte_len(s.take(k)) + byte_len(s.skip(k)),
    decreases s.len() - k,
{
    if k == s.len() {
        assert(s.take(k) =~= s);
        assert(s.skip(k) =~= Seq::empty());
    } else {
        lemma_byte_len_split(s.drop_last(), k);
        assert(s.drop_last().take(k) =~= s.take(k));
        assert(s.skip(k).drop_last() =~= s.drop_last().skip(k));
    }
}

proof fn lemma_cut(s: Seq<char>, n: int, i: int)
    requires
        0 <= i <= s.len(),
        n <= byte_len(s),
    ensures
        i <= cut_at(s, n, i) <= s.len(),
        byte_len(s.take(cut_at(s, n, i))) >= n,
        cut_at(s, n, i) > i ==> byte_len(s.take(cut_at(s, n, i))) <= n + 3,
    decreases s.len() - i,
{
    assert(s.take(s.len() as int) =~= s);
    if i < s.len() && byte_len(s.take(i)) < n {
        lemma_cut(s, n, i + 1);
        assert(s.take(i + 1).drop_last() =~= s.take(i));
    }
}

/// The log never outgrows its bound, and trimming it keeps its end.
pub proof fn log_is_bounded(s: Seq<char>)
    ensures
        byte_len(kept(s)) <= 200000,
        exists|k: int| 0 <= k <= s.len() && kept(s) == s.skip(k),
        byte_len(s) > 200000 ==> 150000 - 3 <= byte_len(kept(s)) <= 150000,
{
    if byte_len(s) > 200000 {
        let n = byte_len(s) - 150000;
        lemma_cut(s, n, 0);
        let k = cut_at(s, n, 0);
        lemma_byte_len_split(s, k);
        lemma_byte_len(s.skip(k));
        assert(s.take(0) =~= Seq::empty());
        assert(kept(s) == s.skip(k));
    } else {
        assert(s.skip(0) =~= s);
        assert(kept(s) == s.skip(0));
    }
}

/// A line tells about progress where it names both a frame and a speed.
pub proof fn progress_names_frame_and_speed(a: Seq<char>, b: Seq<char>, c: Seq<char>, line: Seq<char>)
    ensures
        progress_of(a + "frame="@ + b + "speed="@ + c) is Some,
        !contains_text(line, "frame="@) || !contains_text(line, "speed="@) ==> progress_of(
            line,
        ) is None,
{
    let t = a + "frame="@ + b + "speed="@ + c;
    text_stands_where_it_was_put(a, "frame="@, b + "speed="@ + c);
    assert(a + "frame="@ + (b + "speed="@ + c) =~= t);
    text_stands_where_it_was_put(a + "frame="@ + b, "speed="@, c);
}

/// A word `key=value` gives its value to its key, and a word `key=` gives it the next
/// word. Other words give nothing.
pub proof fn values_follow_their_keys(
    ws: Seq<Seq<char>>,
    i: int,
    k: Seq<char>,
    v: Seq<char>,
)
    requires
        0 <= i < ws.len(),
        !k.contains('='),
    ensures
        v.len() > 0 && ws[i] == k + seq!['='] + v ==> pairs(ws, i) == seq![(k, v)] + pairs(
            ws,
            i + 1,
        ),
        ws[i] == k + seq!['='] && i + 1 < ws.len() ==> pairs(ws, i) == seq![(k, ws[i + 1])] + pairs(
            ws,
            i + 2,
        ),
        ws[i] == k + seq!['='] && i + 1 == ws.len() ==> pairs(ws, i) == seq![(k, ""@)],
        ws[i] == k ==> pairs(ws, i) == pairs(ws, i + 1),
        pairs(ws, ws.len() as int) == Seq::<(Seq<char>, Seq<char>)>::empty(),
{
    text_is_cut_at_its_first_mark(k, '=', v);
    text_is_cut_at_its_first_mark(k, '=', Seq::empty());
    assert(k + seq!['='] + Seq::<char>::empty() =~= k + seq!['=']);
}

/// Of several values of a key the last one counts; a key without one is empty.
pub proof fn last_value_counts(
    ps: Seq<(Seq<char>, Seq<char>)>,
    key: Seq<char>,
    other: Seq<char>,
    v: Seq<char>,
)
    ensures
        last_value(ps.push((key, v)), key) == v,
        other != key ==> last_value(ps.push((other, v)), key) == last_value(ps, key),
        last_value(Seq::empty(), key) == ""@,
{
    assert(ps.push((other, v)).drop_last() =~= ps);
}

/// Each field of a progress line shows the value of its own key.
pub proof fn fields_show_their_keys(line: Seq<char>)
    requires
        is_progress(line),
    ensures
        progress_of(line) matches Some(p) && {
            let value = |key: Seq<char>| last_value(pairs(words(line), 0), key);
            &&& p.frame == value("frame"@)
            &&& p.fps == value("fps"@)
            &&& p.q == value("q"@)
            &&& p.size == size_of_kib(value("size"@))
            &&& p.bitrate == rate_of(value("bitrate"@))
            &&& p.time_sec == clock_of(value("time"@))
            &&& p.time == hms_of(clock_of(value("time"@)))
            &&& p.speed_val == speed_of(value("speed"@))
            &&& value("speed"@).len() > 0 ==> p.speed == value("speed"@)
            &&& value("speed"@).len() == 0 ==> p.speed == "—"@
        },
{
}

/// A speed is the number before its `x`.
pub proof fn speed_is_read(n: int)
    requires
        0 <= n < 0x20_0000_0000_0000,
    ensures
        is_worth(speed_of(dec(n) + seq!['x']), n, 1),
        speed_of(seq!['N', '/', 'A']) == zero(),
{
    dec_is_its_value(n);
    whole_numbers_are_read(n);
    let s = dec(n) + seq!['x'];
    assert(s.drop_last() =~= dec(n));
    assert(crate::number::is_digit(dec(n).last()));
    reveal_with_fuel(trim_end_of, 2);
    assert(trim_end_of(s, 'x') == dec(n));
    let t = seq!['N', '/', 'A'];
    assert(trim_end_of(t, 'x') == t);
    reveal_strlit("nan");
    reveal_strlit("inf");
    reveal_strlit("infinity");
    let w = crate::text::ascii_lower(t);
    assert(w[1] == '/');
    assert("nan"@[1] == 'a');
    assert("inf"@.len() == 3 && "inf"@[1] == 'n');
    assert("infinity"@.len() == 8);
    assert(w.len() == 3);
    reveal_with_fuel(crate::decimal::mark_from, 4);
    assert(crate::decimal::mark_from(t, 0) == 3);
    assert(t.take(3) =~= t);
    reveal_with_fuel(crate::text::find_from, 4);
    assert(crate::text::find_from(t, '.', 0) == 3);
    assert(crate::decimal::whole_part(t) =~= t);
    assert(!crate::number::is_digit(t[0]));
}

/// A client is told of a report under the names of its fields.
pub proof fn message_carries_the_report(m: D2C, id: Seq<char>, p: Prog)
    requires
        tells_report(m, id, p),
    ensures
        m matches D2C::Progress {
            job_id,
            frame,
            fps,
            q,
            size,
            time,
            bitrate,
            speed,
            time_sec,
            eta,
            percent,
        } && job_id@ == id && frame@ == p.line.frame@ && fps@ == p.line.fps@ && q@ == p.line.q@
            && size@ == p.line.size@ && time@ == p.line.time@ && bitrate@ == p.line.bitrate@
            && speed@ == p.line.speed@ && time_sec@ == p.line.time_sec@ && eta@ == p.eta@
            && percent@ == p.percent@,
{
}

/// The report of a line tells how much is left and how much is done of its duration.
pub proof fn report_is_for_its_duration(
    p: Prog,
    line: ProgressView,
    dur: Quantity,
    d: int,
    t: int,
    v: int,
    k: int,
)
    requires
        is_report(p, line, dur),
        is_worth(dur, d, 1),
        is_worth(line.time_sec, t, 1),
        is_worth(line.speed_val, v, 1),
        0 < d < 0x20_0000_0000_0000,
        0 <= t < 0x20_0000_0000_0000,
        0 < v < 0x20_0000_0000_0000,
        k > 0,
    ensures
        p.line@ == line,
        d - t == k * v ==> p.eta@ == hms(k),
        t == d ==> p.eta@ == "—"@ && p.percent@ == whole(100),
        t == 0 ==> is_worth(p.percent@, 0, 1),
{
    time_left_is_shown(dur, line.time_sec, line.speed_val, d, t, v, k);
    share_is_the_part_that_is_done(line.time_sec, dur, t, d);
}

/// The characters that some bytes stand for, one each.
pub open spec fn byte_chars(bs: Seq<u8>) -> Seq<char> {
    Seq::new(bs.len(), |i: int| bs[i] as char)
}

/// The daemon's reader gathers a line byte by byte, up to a line feed or a carriage
/// return; then it reports what the line says.
pub proof fn lines_are_gathered(p: PumpView, bs: Seq<u8>, end: u8)
    requires
        p.escape == Escape::Outside,
        forall|i: int| 0 <= i < bs.len() ==> #[trigger] bs[i] != 13 && bs[i] != 10 && bs[i] != 27,
        end == 13 || end == 10,
    ensures
        pumped_all(p, bs) == (PumpView { cur: p.cur + byte_chars(bs), ..p }),
        reports(p, bs).len() == 0,
        pumped_all(p, bs.push(end)) == (PumpView { cur: Seq::empty(), ..p }),
        reports(p, bs.push(end)) == match progress_of(p.cur + byte_chars(bs)) {
            Some(v) => seq![v],
            None => Seq::empty(),
        },
    decreases bs.len(),
{
    if bs.len() == 0 {
        assert(p.cur + byte_chars(bs) =~= p.cur);
    } else {
        let less = bs.drop_last();
        lines_are_gathered(p, less, end);
        assert(bs[bs.len() - 1] == bs.last());
        assert((p.cur + byte_chars(less)).push(bs.last() as char) =~= p.cur + byte_chars(bs));
    }
    assert(bs.push(end).drop_last() =~= bs);
    assert(reports(p, bs) =~= Seq::empty());
    if let Some(v) = progress_of(p.cur + byte_chars(bs)) {
        assert(reports(p, bs).push(v) =~= seq![v]);
    }
}

proof fn lemma_inside(p: PumpView, params: Seq<u8>)
    requires
        p.escape == Escape::Inside,
        forall|i: int| 0 <= i < params.len() ==> 0x20 <= #[trigger] params[i] < 0x40,
    ensures
        pumped_all(p, params) == p,
        reports(p, params).len() == 0,
    decreases params.len(),
{
    if params.len() > 0 {
        lemma_inside(p, params.drop_last());
        assert(params[params.len() - 1] == params.last());
    }
}

/// The daemon's reader leaves escape sequences out, up to their last byte.
pub proof fn reader_leaves_out_escape_sequences(p: PumpView, params: Seq<u8>, last: u8)
    requires
        p.escape == Escape::Outside,
        forall|i: int| 0 <= i < params.len() ==> 0x20 <= #[trigger] params[i] < 0x40,
        0x40 <= last <= 0x7e,
    ensures
        pumped_all(p, seq![0x1bu8, 0x5bu8] + params + seq![last]) == p,
        reports(p, seq![0x1bu8, 0x5bu8] + params + seq![last]).len() == 0,
        last != 0x5b ==> pumped_all(p, seq![0x1bu8, last]) == p,
{
    let head = seq![0x1bu8, 0x5bu8];
    reveal_with_fuel(pumped_all, 3);
    reveal_with_fuel(reports, 3);
    assert(head.drop_last() =~= seq![0x1bu8]);
    assert(seq![0x1bu8].drop_last() =~= Seq::<u8>::empty());
    let q = PumpView { escape: Escape::Inside, ..p };
    assert(pumped_all(p, head) == q);
    lemma_inside(q, params);
    reports_do_not_depend_on_pieces(p, head, params);
    let most = head + params;
    let all = most + seq![last];
    assert(all.drop_last() =~= most);
    assert(all.last() == last);
    assert(all =~= head + params + seq![last]);
    let two = seq![0x1bu8, last];
    assert(two.drop_last() =~= seq![0x1bu8]);
    assert(two.last() == last);
}

/// Whether a character is shown as it is: it is no control character but a tabulator.
pub open spec fn is_plain_char(c: char) -> bool {
    c as int >= 32 || c as int == 9
}

/// Plain text goes where the cursor stands, over what was there before, and the cursor
/// goes along.
pub proof fn plain_text_is_written(s: ScreenView, cs: Seq<char>)
    requires
        s.state == Ansi::Normal,
        0 <= s.cursor <= s.line.len(),
        forall|i: int| 0 <= i < cs.len() ==> is_plain_char(#[trigger] cs[i]),
    ensures
        s.cursor + cs.len() <= s.line.len() ==> shown_chars(s, cs) == (ScreenView {
            line: s.line.take(s.cursor) + cs + s.line.skip(s.cursor + cs.len()),
            cursor: s.cursor + cs.len(),
            ..s
        }),
        s.cursor + cs.len() >= s.line.len() ==> shown_chars(s, cs) == (ScreenView {
            line: s.line.take(s.cursor) + cs,
            cursor: s.cursor + cs.len(),
            ..s
        }),
    decreases cs.len(),
{
    let n = cs.len() as int;
    if n == 0 {
        assert(s.line.take(s.cursor) + cs + s.line.skip(s.cursor + 0) =~= s.line);
        if s.cursor >= s.line.len() {
            assert(s.line.take(s.cursor) + cs =~= s.line);
        }
    } else {
        let less = cs.drop_last();
        plain_text_is_written(s, less);
        assert(is_plain_char(cs[n - 1]));
        let t = shown_chars(s, less);
        let c = cs.last();
        assert(less.push(c) =~= cs);
        if s.cursor + n <= s.line.len() {
            assert(typed(t.line, t.cursor, c) =~= s.line.take(s.cursor) + cs + s.line.skip(
                s.cursor + n,
            ));
            if s.cursor + n == s.line.len() {
                assert(typed(t.line, t.cursor, c) =~= s.line.take(s.cursor) + cs);
            }
        } else {
            assert(typed(t.line, t.cursor, c) =~= s.line.take(s.cursor) + cs);
        }
    }
}

/// A line feed completes the line and notes its progress, a carriage return goes to its
/// beginning, and other control characters do nothing.
pub proof fn control_characters_move_the_cursor(s: ScreenView, c: char)
    requires
        s.state == Ansi::Normal,
    ensures
        shown_char(s, '\n').committed == s.committed + s.line + seq!['\n'],
        shown_char(s, '\n').line.len() == 0,
        shown_char(s, '\n').cursor == 0,
        progress_of(s.line) matches Some(v) ==> shown_char(s, '\n').progress == Some(v),
        progress_of(s.line) is None ==> shown_char(s, '\n').progress == s.progress,
        shown_char(s, '\r') == (ScreenView { cursor: 0, ..s }),
        (c as int) < 32 && c as int != 9 && c as int != 10 && c as int != 13 && c as int != 27
            ==> shown_char(s, c) == s,
{
}

proof fn lemma_parameters(s: ScreenView, params: Seq<char>)
    requires
        s.state == Ansi::Csi,
        forall|i: int| 0 <= i < params.len() ==> (#[trigger] params[i] as int) < 0x40,
    ensures
        shown_chars(s, params) == s,
    decreases params.len(),
{
    if params.len() > 0 {
        lemma_parameters(s, params.drop_last());
        assert((params[params.len() - 1] as int) < 0x40);
    }
}

proof fn lemma_title(s: ScreenView, title: Seq<char>)
    requires
        s.state == Ansi::Osc,
        forall|i: int|
            0 <= i < title.len() ==> #[trigger] title[i] as int != 7 && title[i] as int != 27,
    ensures
        shown_chars(s, title) == s,
    decreases title.len(),
{
    if title.len() > 0 {
        lemma_title(s, title.drop_last());
        assert(title[title.len() - 1] as int != 7 && title[title.len() - 1] as int != 27);
    }
}

/// The terminal does not show escape sequences. The one that ends in `K` clears the line
/// from the cursor on; the others change nothing. A title ends at the bell character.
pub proof fn escape_sequences_are_not_shown(
    s: ScreenView,
    params: Seq<char>,
    last: char,
    title: Seq<char>,
)
    requires
        s.state == Ansi::Normal,
        forall|i: int| 0 <= i < params.len() ==> (#[trigger] params[i] as int) < 0x40,
        0x40 <= last as int <= 0x7e,
        forall|i: int|
            0 <= i < title.len() ==> #[trigger] title[i] as int != 7 && title[i] as int != 27,
    ensures
        last != 'K' ==> shown_chars(s, seq!['\u{1b}', '['] + params + seq![last]) == s,
        shown_chars(s, seq!['\u{1b}', '['] + params + seq!['K']) == (ScreenView {
            line: s.line.take(s.cursor),
            ..s
        }),
        shown_chars(s, seq!['\u{1b}', ']'] + title + seq!['\u{7}']) == s,
        last != '[' && last != ']' ==> shown_chars(s, seq!['\u{1b}', last]) == s,
{
    reveal_with_fuel(shown_chars, 3);
    let one = seq!['\u{1b}'];
    assert(one.drop_last() =~= Seq::<char>::empty());
    let esc = ScreenView { state: Ansi::Esc, ..s };
    assert(shown_chars(s, one) == esc);
    let csi = seq!['\u{1b}', '['];
    assert(csi.drop_last() =~= one);
    let c = ScreenView { state: Ansi::Csi, ..s };
    assert(shown_chars(s, csi) == c);
    lemma_parameters(c, params);
    pieces_make_no_difference(s, csi, params);
    let most = csi + params;
    assert((most + seq![last]).drop_last() =~= most);
    assert((most + seq!['K']).drop_last() =~= most);
    let osc = seq!['\u{1b}', ']'];
    assert(osc.drop_last() =~= one);
    let o = ScreenView { state: Ansi::Osc, ..s };
    assert(shown_chars(s, osc) == o);
    lemma_title(o, title);
    pieces_make_no_difference(s, osc, title);
    assert((osc + title + seq!['\u{7}']).drop_last() =~= osc + title);
    let two = seq!['\u{1b}', last];
    assert(two.drop_last() =~= one);
    assert(two.last() == last);
}

/// The log is kept whole up to 200,000 bytes, and a character takes one to four of them.
pub proof fn short_logs_are_kept(s: Seq<char>, c: char)
    ensures
        byte_len(s) <= 200_000 ==> kept(s) == s,
        byte_len(s.push(c)) == byte_len(s) + char_width(c),
        byte_len(Seq::empty()) == 0,
        0 <= c as int <= 0x7f ==> char_width(c) == 1,
        0x80 <= c as int <= 0x7ff ==> char_width(c) == 2,
        0x800 <= c as int <= 0xffff ==> char_width(c) == 3,
        0x10000 <= c as int ==> char_width(c) == 4,
{
    assert(s.push(c).drop_last() =~= s);
}

} // verus!
