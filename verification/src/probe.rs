//! Reading what ffprobe prints about a file.
use vstd::prelude::*;
use vstd::string::*;
use crate::decimal::{decimal_or, quantity_or, zero, Decimal};
use crate::encoder::{
    blank_summary, bytes_of, put, sets_at, InfoView, ProbeResult, ProbeView, StreamSummary,
    SummaryView, VideoInfo,
};
use crate::format::{
    bitrate_kbps, bits_label, bits_of, deep_format, fmt_fps, fmt_hms, fps_of, hms_of,
    is_deep_format, kbps_of,
};
use crate::number::{
    dec, dec_int, dec_is_its_value, i64_of, is_digit, only_what_fits_is_read, parse_i64, print_i64,
};
use crate::text::{
    all_white, char_texts, chars_are, chars_of, concat2, concat3, contains_text, decoded,
    is_trimmed, lines, lines_end_at_line_feeds, lines_of, split_once, split_once_chars, stands_at,
    string_of, text_eq, text_is_cut_at_its_first_mark, text_of_bytes, texts, trim, trim_chars,
    upper_text, uppercase, white_ends_are_trimmed,
};

verus! {

// ---------------------------------------------------------------- the video stream
/// What has been read of the video stream so far.
#[verifier::ext_equal]
pub struct Fields {
    pub w: int,
    pub h: int,
    pub bits: int,
    pub pix_fmt: Seq<char>,
    pub trc: Seq<char>,
    pub primaries: Seq<char>,
    pub space: Seq<char>,
    pub range: Seq<char>,
}

/// The number a text denotes, or zero.
pub open spec fn number_or_zero(s: Seq<char>) -> int {
    match i64_of(s) {
        Some(n) => n,
        None => 0,
    }
}

/// The fields before anything is read.
pub open spec fn no_fields() -> Fields {
    Fields {
        w: 0,
        h: 0,
        bits: 0,
        pix_fmt: ""@,
        trc: ""@,
        primaries: ""@,
        space: ""@,
        range: "tv"@,
    }
}

/// The fields with the value `v` for the key `k`.
pub open spec fn with_field(f: Fields, k: Seq<char>, v: Seq<char>) -> Fields {
    if k == "width"@ {
        Fields { w: number_or_zero(v), ..f }
    } else if k == "height"@ {
        Fields { h: number_or_zero(v), ..f }
    } else if k == "pix_fmt"@ {
        Fields { pix_fmt: v, ..f }
    } else if k == "bits_per_raw_sample"@ {
        Fields { bits: number_or_zero(v), ..f }
    } else if k == "color_transfer"@ {
        Fields { trc: v, ..f }
    } else if k == "color_primaries"@ {
        Fields { primaries: v, ..f }
    } else if k == "color_space"@ {
        Fields { space: v, ..f }
    } else if k == "color_range"@ {
        Fields { range: v, ..f }
    } else {
        f
    }
}

/// The fields after one more line of `key=value`. Other lines say nothing.
pub open spec fn after_line(f: Fields, line: Seq<char>) -> Fields {
    match split_once(line, '=') {
        Some((k, v)) => with_field(f, trim(k), trim(v)),
        None => f,
    }
}

/// The fields after some lines.
pub open spec fn fields_of(ls: Seq<Seq<char>>) -> Fields
    decreases ls.len(),
{
    if ls.len() == 0 {
        no_fields()
    } else {
        after_line(fields_of(ls.drop_last()), ls.last())
    }
}

/// Whether a source has more than 8 bits. The depth is the best evidence; where
/// it is missing the pixel format tells.
pub open spec fn is_deep(bits: int, pix_fmt: Seq<char>) -> bool {
    if bits > 0 {
        bits > 8
    } else {
        is_deep_format(pix_fmt)
    }
}

/// Whether a transfer function is one of HDR.
pub open spec fn is_hdr(trc: Seq<char>) -> bool {
    trc == "smpte2084"@ || trc == "arib-std-b67"@
}

/// `s`, or `other` where nothing is known.
pub open spec fn known_or(s: Seq<char>, other: Seq<char>) -> Seq<char> {
    if s.len() == 0 || s == "unknown"@ {
        other
    } else {
        s
    }
}

/// What the fields say about the video stream.
pub open spec fn info_from(f: Fields) -> InfoView {
    let hdr = is_hdr(f.trc);
    InfoView {
        w: f.w,
        h: f.h,
        hdr,
        ten_bit: is_deep(f.bits, f.pix_fmt),
        trc: f.trc,
        primaries: if hdr {
            known_or(f.primaries, "bt2020"@)
        } else {
            f.primaries
        },
        space: if hdr {
            known_or(f.space, "bt2020nc"@)
        } else {
            f.space
        },
        range: if hdr {
            known_or(f.range, "tv"@)
        } else {
            f.range
        },
    }
}

/// What is known of a video stream that could not be probed.
pub open spec fn no_info() -> InfoView {
    InfoView {
        w: 0,
        h: 0,
        hdr: false,
        ten_bit: false,
        trc: ""@,
        primaries: ""@,
        space: ""@,
        range: "tv"@,
    }
}

/// What ffprobe's output says about the video stream.
pub open spec fn video_of(out: Option<Seq<u8>>) -> InfoView {
    match out {
        Some(b) => info_from(fields_of(lines(decoded(b)))),
        None => no_info(),
    }
}

fn i64_or_zero(s: &[char]) -> (r: i64)
    ensures
        r == number_or_zero(s@),
{
    match parse_i64(s) {
        Some(n) => n,
        None => 0,
    }
}

fn or_known(s: String, other: &str) -> (r: String)
    ensures
        r@ == known_or(s@, other@),
{
    let c = chars_of(s.as_str());
    if c.len() == 0 || chars_are(c.as_slice(), "unknown") {
        other.to_string()
    } else {
        s
    }
}

/// Reads the resolution, the colours and the depth of a video stream from
/// ffprobe's `key=value` lines.
pub fn read_video(text: &str) -> (r: VideoInfo)
    ensures
        r@ == info_from(fields_of(lines(text@))),
{
    let c = chars_of(text);
    let ls = lines_of(c.as_slice());
    let mut w: i64 = 0;
    let mut h: i64 = 0;
    let mut bits: i64 = 0;
    let mut pix_fmt: String = "".to_string();
    let mut trc: String = "".to_string();
    let mut primaries: String = "".to_string();
    let mut space: String = "".to_string();
    let mut range: String = "tv".to_string();
    let ghost all = char_texts(ls@);
    let mut i: usize = 0;
    while i < ls.len()
        invariant
            i <= ls@.len(),
            all == char_texts(ls@),
            fields_of(all.take(i as int)) == (Fields {
                w: w as int,
                h: h as int,
                bits: bits as int,
                pix_fmt: pix_fmt@,
                trc: trc@,
                primaries: primaries@,
                space: space@,
                range: range@,
            }),
        decreases ls@.len() - i,
    {
        assert(all.take(i + 1).drop_last() =~= all.take(i as int));
        assert(all.take(i + 1).last() == ls@[i as int]@);
        match split_once_chars(ls[i].as_slice(), '=') {
            None => {},
            Some((k, v)) => {
                let k = trim_chars(k.as_slice());
                let v = trim_chars(v.as_slice());
                if chars_are(k.as_slice(), "width") {
                    w = i64_or_zero(v.as_slice());
                } else if chars_are(k.as_slice(), "height") {
                    h = i64_or_zero(v.as_slice());
                } else if chars_are(k.as_slice(), "pix_fmt") {
                    pix_fmt = string_of(v.as_slice());
                } else if chars_are(k.as_slice(), "bits_per_raw_sample") {
                    bits = i64_or_zero(v.as_slice());
                } else if chars_are(k.as_slice(), "color_transfer") {
                    trc = string_of(v.as_slice());
                } else if chars_are(k.as_slice(), "color_primaries") {
                    primaries = string_of(v.as_slice());
                } else if chars_are(k.as_slice(), "color_space") {
                    space = string_of(v.as_slice());
                } else if chars_are(k.as_slice(), "color_range") {
                    range = string_of(v.as_slice());
                }
            },
        }
        i += 1;
    }
    assert(all.take(ls@.len() as int) =~= all);
    let ten_bit = if bits > 0 {
        bits > 8
    } else {
        let p = chars_of(pix_fmt.as_str());
        deep_format(p.as_slice())
    };
    let hdr = text_eq(trc.as_str(), "smpte2084") || text_eq(trc.as_str(), "arib-std-b67");
    if hdr {
        primaries = or_known(primaries, "bt2020");
        space = or_known(space, "bt2020nc");
        range = or_known(range, "tv");
    }
    VideoInfo { w, h, hdr, ten_bit, trc, primaries, space, range }
}

/// Reads what ffprobe printed about the video stream; the defaults where it
/// could not be run.
pub fn probe_video(out: &Option<Vec<u8>>) -> (r: VideoInfo)
    ensures
        r@ == video_of(bytes_of(out)),
{
    match out {
        Some(b) => read_video(text_of_bytes(b.as_slice()).as_str()),
        None => VideoInfo {
            w: 0,
            h: 0,
            hdr: false,
            ten_bit: false,
            trc: "".to_string(),
            primaries: "".to_string(),
            space: "".to_string(),
            range: "tv".to_string(),
        },
    }
}

// ---------------------------------------------------------------- single numbers
/// The number on the first line of a text, where it is above zero.
pub open spec fn first_number(text: Seq<char>) -> Option<int> {
    let ls = lines(text);
    if ls.len() == 0 {
        None
    } else {
        match i64_of(trim(ls[0])) {
            Some(n) => if n > 0 {
                Some(n)
            } else {
                None
            },
            None => None,
        }
    }
}

/// The number that a program printed, where it ran and printed one above zero.
pub open spec fn number_printed(out: Option<Seq<u8>>) -> Option<int> {
    match out {
        Some(b) => first_number(decoded(b)),
        None => None,
    }
}

/// Reads the number on the first line of a text.
pub fn read_number(text: &str) -> (r: Option<i64>)
    ensures
        match r {
            Some(n) => first_number(text@) == Some(n as int),
            None => first_number(text@) is None,
        },
{
    let c = chars_of(text);
    let ls = lines_of(c.as_slice());
    assert(char_texts(ls@).len() == ls@.len());
    if ls.len() == 0 {
        return None;
    }
    assert(char_texts(ls@)[0] == ls@[0]@);
    let t = trim_chars(ls[0].as_slice());
    match parse_i64(t.as_slice()) {
        Some(n) if n > 0 => Some(n),
        _ => None,
    }
}

/// Reads the number that ffprobe printed.
pub fn ffprobe_num(out: &Option<Vec<u8>>) -> (r: Option<i64>)
    ensures
        match r {
            Some(n) => number_printed(bytes_of(out)) == Some(n as int),
            None => number_printed(bytes_of(out)) is None,
        },
{
    match out {
        Some(b) => read_number(text_of_bytes(b.as_slice()).as_str()),
        None => None,
    }
}

/// The channels of the audio; two where they are not known.
pub open spec fn channels_of(out: Option<Seq<u8>>) -> int {
    match number_printed(out) {
        Some(n) => n,
        None => 2,
    }
}

/// Channel count of the first audio stream (2 if it can't be read).
pub fn probe_channels(out: &Option<Vec<u8>>) -> (r: i64)
    ensures
        r == channels_of(bytes_of(out)),
        r > 0,
{
    match ffprobe_num(out) {
        Some(n) => n,
        None => 2,
    }
}

/// The source's bitrate in kbps: the video stream's, else the container's, else
/// zero.
pub open spec fn source_rate(stream: Option<Seq<u8>>, container: Option<Seq<u8>>) -> int {
    match number_printed(stream) {
        Some(bps) => bps / 1000,
        None => match number_printed(container) {
            Some(bps) => bps / 1000,
            None => 0,
        },
    }
}

/// File bitrate in kbps, from what ffprobe printed for the video stream and for
/// the container. The container matters only where the stream gave no number.
pub fn probe_bitrate(stream: &Option<Vec<u8>>, container: &Option<Vec<u8>>) -> (r: i64)
    ensures
        r == source_rate(bytes_of(stream), bytes_of(container)),
        r >= 0,
{
    match ffprobe_num(stream) {
        Some(bps) => bps / 1000,
        None => match ffprobe_num(container) {
            Some(bps) => bps / 1000,
            None => 0,
        },
    }
}

// ---------------------------------------------------------------- all streams
/// The first value for a key, from position `i` on; empty where there is none.
pub open spec fn lookup(sec: Seq<(Seq<char>, Seq<char>)>, key: Seq<char>, i: int) -> Seq<char>
    decreases sec.len() - i,
{
    if i < 0 || i >= sec.len() {
        ""@
    } else if sec[i].0 == key {
        sec[i].1
    } else {
        lookup(sec, key, i + 1)
    }
}

/// The texts of a section.
pub open spec fn section_texts(sec: Seq<(String, String)>) -> Seq<(Seq<char>, Seq<char>)> {
    Seq::new(sec.len(), |i: int| (sec[i].0@, sec[i].1@))
}

/// A summary with what a section says about one stream. Only the first video
/// and the first audio stream count.
pub open spec fn with_stream(
    s: SummaryView,
    sec: Seq<(Seq<char>, Seq<char>)>,
) -> SummaryView {
    let kind = lookup(sec, "codec_type"@, 0);
    let layout = lookup(sec, "channel_layout"@, 0);
    let rate = lookup(sec, "sample_rate"@, 0);
    if kind == "video"@ && s.v_codec.len() == 0 {
        SummaryView {
            v_codec: upper_text(lookup(sec, "codec_name"@, 0)),
            v_res: lookup(sec, "width"@, 0) + "x"@ + lookup(sec, "height"@, 0),
            v_fps: fps_of(lookup(sec, "r_frame_rate"@, 0)),
            v_bits: bits_of(lookup(sec, "pix_fmt"@, 0)),
            v_fmt: lookup(sec, "pix_fmt"@, 0),
            v_bitrate: kbps_of(lookup(sec, "bit_rate"@, 0)),
            ..s
        }
    } else if kind == "audio"@ && s.a_codec.len() == 0 {
        SummaryView {
            a_codec: upper_text(lookup(sec, "codec_name"@, 0)),
            a_layout: if layout.len() == 0 || layout == "unknown"@ {
                lookup(sec, "channels"@, 0) + " ch"@
            } else {
                layout + " ("@ + lookup(sec, "channels"@, 0) + " ch)"@
            },
            a_rate: if rate.len() == 0 {
                s.a_rate
            } else {
                rate + " Hz"@
            },
            a_bitrate: kbps_of(lookup(sec, "bit_rate"@, 0)),
            ..s
        }
    } else {
        s
    }
}

/// A summary with the duration that a section gives; the last one counts.
pub open spec fn with_duration(
    s: SummaryView,
    sec: Seq<(Seq<char>, Seq<char>)>,
) -> SummaryView
    decreases sec.len(),
{
    if sec.len() == 0 {
        s
    } else if sec.last().0 == "duration"@ {
        SummaryView { duration: quantity_or(sec.last().1, zero()), ..s }
    } else {
        with_duration(s, sec.drop_last())
    }
}

/// What has been read of the sections so far.
#[verifier::ext_equal]
pub struct Reading {
    pub summary: SummaryView,
    pub section: Seq<(Seq<char>, Seq<char>)>,
    pub inside: bool,
}

/// The state after one more line, white space around it removed.
pub open spec fn read_on(r: Reading, line: Seq<char>) -> Reading {
    if line == "[STREAM]"@ || line == "[FORMAT]"@ {
        Reading { section: Seq::empty(), inside: true, ..r }
    } else if line == "[/STREAM]"@ {
        Reading { summary: with_stream(r.summary, r.section), inside: false, ..r }
    } else if line == "[/FORMAT]"@ {
        Reading { summary: with_duration(r.summary, r.section), inside: false, ..r }
    } else if r.inside {
        match split_once(line, '=') {
            Some((k, v)) => Reading { section: r.section.push((trim(k), trim(v))), ..r },
            None => r,
        }
    } else {
        r
    }
}

/// The state after some lines.
pub open spec fn reading_of(ls: Seq<Seq<char>>) -> Reading
    decreases ls.len(),
{
    if ls.len() == 0 {
        Reading { summary: blank_summary(), section: Seq::empty(), inside: false }
    } else {
        read_on(reading_of(ls.drop_last()), trim(ls.last()))
    }
}

/// The summary in ffprobe's sections.
pub open spec fn summary_in(text: Seq<char>) -> SummaryView {
    let s = reading_of(lines(text)).summary;
    SummaryView { dur_str: hms_of(s.duration), ..s }
}

/// The summary in what ffprobe printed.
pub open spec fn summary_printed(out: Option<Seq<u8>>) -> SummaryView {
    match out {
        Some(b) => summary_in(decoded(b)),
        None => blank_summary(),
    }
}

fn get(sec: &Vec<(String, String)>, key: &str) -> (r: String)
    ensures
        r@ == lookup(section_texts(sec@), key@, 0),
{
    let ghost t = section_texts(sec@);
    let mut i: usize = 0;
    while i < sec.len()
        invariant
            i <= sec@.len(),
            t == section_texts(sec@),
            lookup(t, key@, 0) == lookup(t, key@, i as int),
        decreases sec@.len() - i,
    {
        assert(t[i as int] == (sec@[i as int].0@, sec@[i as int].1@));
        if text_eq(sec[i].0.as_str(), key) {
            return sec[i].1.clone();
        }
        i += 1;
    }
    "".to_string()
}

fn is_empty(s: &String) -> (r: bool)
    ensures
        r == (s@.len() == 0),
{
    chars_of(s.as_str()).len() == 0
}

/// Takes one stream's section into a summary.
pub fn apply_stream(s: &mut StreamSummary, sec: &Vec<(String, String)>)
    requires
        old(s).wf(),
    ensures
        final(s).wf(),
        final(s)@ == with_stream(old(s)@, section_texts(sec@)),
{
    let kind = get(sec, "codec_type");
    if text_eq(kind.as_str(), "video") && is_empty(&s.v_codec) {
        s.v_codec = uppercase(get(sec, "codec_name").as_str());
        s.v_res = concat3(get(sec, "width").as_str(), "x", get(sec, "height").as_str());
        s.v_fps = fmt_fps(get(sec, "r_frame_rate").as_str());
        let pf = get(sec, "pix_fmt");
        s.v_bits = bits_label(pf.as_str());
        s.v_fmt = pf;
        s.v_bitrate = bitrate_kbps(get(sec, "bit_rate").as_str());
    } else if text_eq(kind.as_str(), "audio") && is_empty(&s.a_codec) {
        s.a_codec = uppercase(get(sec, "codec_name").as_str());
        let ch = get(sec, "channels");
        let lay = get(sec, "channel_layout");
        s.a_layout =
        if is_empty(&lay) || text_eq(lay.as_str(), "unknown") {
            concat2(ch.as_str(), " ch")
        } else {
            let mut l = concat3(lay.as_str(), " (", ch.as_str());
            l.append(" ch)");
            l
        };
        let sr = get(sec, "sample_rate");
        if !is_empty(&sr) {
            s.a_rate = concat2(sr.as_str(), " Hz");
        }
        s.a_bitrate = bitrate_kbps(get(sec, "bit_rate").as_str());
    }
}

fn apply_format(s: &mut StreamSummary, sec: &Vec<(String, String)>)
    requires
        old(s).wf(),
    ensures
        final(s).wf(),
        final(s)@ == with_duration(old(s)@, section_texts(sec@)),
{
    let ghost t = section_texts(sec@);
    let ghost before = s@;
    let mut i: usize = sec.len();
    assert(t.take(i as int) =~= t);
    while i > 0
        invariant
            i <= sec@.len(),
            t == section_texts(sec@),
            s.wf(),
            s@ == before,
            before == old(s)@,
            with_duration(before, t) == with_duration(before, t.take(i as int)),
        decreases i,
    {
        assert(t.take(i as int).last() == (sec@[i - 1].0@, sec@[i - 1].1@));
        assert(t.take(i as int).drop_last() =~= t.take(i - 1));
        if text_eq(sec[i - 1].0.as_str(), "duration") {
            let v = chars_of(sec[i - 1].1.as_str());
            s.duration = decimal_or(v.as_slice(), Decimal::zero());
            return ;
        }
        i -= 1;
    }
}

/// Reads the sections ffprobe prints for the streams and the container.
pub fn read_streams(text: &str) -> (r: StreamSummary)
    ensures
        r.wf(),
        r@ == summary_in(text@),
{
    let c = chars_of(text);
    let ls = lines_of(c.as_slice());
    let mut s = StreamSummary::blank();
    let mut section: Vec<(String, String)> = Vec::new();
    let mut inside = false;
    let ghost all = char_texts(ls@);
    assert(section_texts(section@) =~= Seq::empty());
    let mut i: usize = 0;
    while i < ls.len()
        invariant
            i <= ls@.len(),
            all == char_texts(ls@),
            s.wf(),
            reading_of(all.take(i as int)) == (Reading {
                summary: s@,
                section: section_texts(section@),
                inside,
            }),
        decreases ls@.len() - i,
    {
        assert(all.take(i + 1).drop_last() =~= all.take(i as int));
        assert(all.take(i + 1).last() == ls@[i as int]@);
        let line = trim_chars(ls[i].as_slice());
        if chars_are(line.as_slice(), "[STREAM]") || chars_are(line.as_slice(), "[FORMAT]") {
            inside = true;
            section = Vec::new();
            assert(section_texts(section@) =~= Seq::empty());
        } else if chars_are(line.as_slice(), "[/STREAM]") {
            apply_stream(&mut s, &section);
            inside = false;
        } else if chars_are(line.as_slice(), "[/FORMAT]") {
            apply_format(&mut s, &section);
            inside = false;
        } else if inside {
            match split_once_chars(line.as_slice(), '=') {
                None => {},
                Some((k, v)) => {
                    let k = trim_chars(k.as_slice());
                    let v = trim_chars(v.as_slice());
                    let ghost before = section_texts(section@);
                    let pair = (string_of(k.as_slice()), string_of(v.as_slice()));
                    section.push(pair);
                    assert(section_texts(section@) =~= before.push((k@, v@)));
                },
            }
        }
        i += 1;
    }
    assert(all.take(ls@.len() as int) =~= all);
    s.dur_str = fmt_hms(&s.duration);
    s
}

/// Full stream summary (first video and first audio stream) and duration, from
/// what ffprobe printed.
pub fn probe_streams(out: &Option<Vec<u8>>) -> (r: StreamSummary)
    ensures
        r.wf(),
        r@ == summary_printed(bytes_of(out)),
{
    match out {
        Some(b) => read_streams(text_of_bytes(b.as_slice()).as_str()),
        None => StreamSummary::blank(),
    }
}

// ---------------------------------------------------------------- everything
/// Whether the probe of the video stream found a picture.
pub open spec fn shows_picture(video: Option<Seq<u8>>) -> bool {
    video_of(video).w > 0 && video_of(video).h > 0
}

/// Whether the other probes are made: only where the first one found a picture.
pub fn has_picture(video: &Option<Vec<u8>>) -> (r: bool)
    ensures
        r == shows_picture(bytes_of(video)),
{
    let inf = probe_video(video);
    inf.w > 0 && inf.h > 0
}

/// Whether the container is asked for its bitrate: only where the video stream
/// gave none.
pub fn needs_container_rate(stream_rate: &Option<Vec<u8>>) -> (r: bool)
    ensures
        r == (number_printed(bytes_of(stream_rate)) is None),
{
    ffprobe_num(stream_rate).is_none()
}

/// What the five probes found together; nothing where no picture was found.
pub open spec fn probe_of(
    video: Option<Seq<u8>>,
    stream_rate: Option<Seq<u8>>,
    container_rate: Option<Seq<u8>>,
    channels: Option<Seq<u8>>,
    streams: Option<Seq<u8>>,
) -> Option<ProbeView> {
    let inf = video_of(video);
    let kbps = source_rate(stream_rate, container_rate);
    let s = summary_printed(streams);
    if !shows_picture(video) {
        None
    } else {
        Some(
            ProbeView {
                inf,
                streams: if s.v_bitrate.len() == 0 && kbps > 0 {
                    SummaryView { v_bitrate: dec_int(kbps) + " kbps"@, ..s }
                } else {
                    s
                },
                src_kbps: kbps,
                channels: channels_of(channels),
            },
        )
    }
}

/// Puts together what the probes of one input printed: the video stream, its
/// bitrate, the container's bitrate, the audio channels and the stream summary.
/// None where the input could not be read.
pub fn probe_all(
    video: &Option<Vec<u8>>,
    stream_rate: &Option<Vec<u8>>,
    container_rate: &Option<Vec<u8>>,
    channels: &Option<Vec<u8>>,
    streams: &Option<Vec<u8>>,
) -> (r: Option<ProbeResult>)
    ensures
        match r {
            Some(p) => p.wf() && probe_of(
                bytes_of(video),
                bytes_of(stream_rate),
                bytes_of(container_rate),
                bytes_of(channels),
                bytes_of(streams),
            ) == Some(p@),
            None => probe_of(
                bytes_of(video),
                bytes_of(stream_rate),
                bytes_of(container_rate),
                bytes_of(channels),
                bytes_of(streams),
            ) is None,
        },
{
    let inf = probe_video(video);
    if !(inf.w > 0 && inf.h > 0) {
        return None;
    }
    let src_kbps = probe_bitrate(stream_rate, container_rate);
    let channels = probe_channels(channels);
    let mut streams = probe_streams(streams);
    if is_empty(&streams.v_bitrate) && src_kbps > 0 {
        streams.v_bitrate = concat2(print_i64(src_kbps).as_str(), " kbps");
    }
    Some(ProbeResult { inf, streams, src_kbps, channels })
}

/// A probe that is not made would have changed nothing: without a picture none of
/// the others counts, and the container's bitrate counts only where the video
/// stream gave none.
pub proof fn probes_not_made_do_not_count(
    video: Option<Seq<u8>>,
    stream_rate: Option<Seq<u8>>,
    container_rate: Option<Seq<u8>>,
    channels: Option<Seq<u8>>,
    streams: Option<Seq<u8>>,
)
    ensures
        !shows_picture(video) ==> probe_of(video, stream_rate, container_rate, channels, streams)
            == probe_of(video, None, None, None, None),
        number_printed(stream_rate) is Some ==> probe_of(
            video,
            stream_rate,
            container_rate,
            channels,
            streams,
        ) == probe_of(video, stream_rate, None, channels, streams),
{
}

// ---------------------------------------------------------------- ffprobe's arguments
/// The arguments that probe the video stream.
pub open spec fn video_probe_of(file: Seq<char>) -> Seq<Seq<char>> {
    seq![
        "-v"@,
        "error"@,
        "-select_streams"@,
        "v:0"@,
        "-show_entries"@,
        "stream=width,height,pix_fmt,bits_per_raw_sample,color_space,color_transfer,color_primaries,color_range"@,
        "-of"@,
        "default=nk=0:nw=1"@,
        "-i"@,
        file,
    ]
}

/// The arguments that probe the video stream.
pub fn video_probe_args(file: &str) -> (r: Vec<String>)
    ensures
        texts(r@) == video_probe_of(file@),
{
    let mut a: Vec<String> = Vec::new();
    put(&mut a, "-v");
    put(&mut a, "error");
    put(&mut a, "-select_streams");
    put(&mut a, "v:0");
    put(&mut a, "-show_entries");
    put(
        &mut a,
        "stream=width,height,pix_fmt,bits_per_raw_sample,color_space,color_transfer,color_primaries,color_range",
    );
    put(&mut a, "-of");
    put(&mut a, "default=nk=0:nw=1");
    put(&mut a, "-i");
    put(&mut a, file);
    assert(texts(a@) =~= video_probe_of(file@));
    a
}

/// The arguments that ask for the channels of the first audio stream.
pub open spec fn channels_probe_of(file: Seq<char>) -> Seq<Seq<char>> {
    seq![
        "-v"@,
        "error"@,
        "-select_streams"@,
        "a:0"@,
        "-show_entries"@,
        "stream=channels"@,
        "-of"@,
        "default=nk=1:nw=1"@,
        "-i"@,
        file,
    ]
}

/// The arguments that ask for the channels of the first audio stream.
pub fn channels_probe_args(file: &str) -> (r: Vec<String>)
    ensures
        texts(r@) == channels_probe_of(file@),
{
    let mut a: Vec<String> = Vec::new();
    put(&mut a, "-v");
    put(&mut a, "error");
    put(&mut a, "-select_streams");
    put(&mut a, "a:0");
    put(&mut a, "-show_entries");
    put(&mut a, "stream=channels");
    put(&mut a, "-of");
    put(&mut a, "default=nk=1:nw=1");
    put(&mut a, "-i");
    put(&mut a, file);
    assert(texts(a@) =~= channels_probe_of(file@));
    a
}

/// The arguments that ask for the bitrate of the video stream.
pub open spec fn stream_rate_probe_of(file: Seq<char>) -> Seq<Seq<char>> {
    seq![
        "-v"@,
        "error"@,
        "-select_streams"@,
        "v:0"@,
        "-show_entries"@,
        "stream=bit_rate"@,
        "-of"@,
        "default=nk=1:nw=1"@,
        "-i"@,
        file,
    ]
}

/// The arguments that ask for the bitrate of the video stream.
pub fn stream_rate_probe_args(file: &str) -> (r: Vec<String>)
    ensures
        texts(r@) == stream_rate_probe_of(file@),
{
    let mut a: Vec<String> = Vec::new();
    put(&mut a, "-v");
    put(&mut a, "error");
    put(&mut a, "-select_streams");
    put(&mut a, "v:0");
    put(&mut a, "-show_entries");
    put(&mut a, "stream=bit_rate");
    put(&mut a, "-of");
    put(&mut a, "default=nk=1:nw=1");
    put(&mut a, "-i");
    put(&mut a, file);
    assert(texts(a@) =~= stream_rate_probe_of(file@));
    a
}

/// The arguments that ask for the bitrate of the container.
pub open spec fn container_rate_probe_of(file: Seq<char>) -> Seq<Seq<char>> {
    seq![
        "-v"@,
        "error"@,
        "-show_entries"@,
        "format=bit_rate"@,
        "-of"@,
        "default=nk=1:nw=1"@,
        "-i"@,
        file,
    ]
}

/// The arguments that ask for the bitrate of the container.
pub fn container_rate_probe_args(file: &str) -> (r: Vec<String>)
    ensures
        texts(r@) == container_rate_probe_of(file@),
{
    let mut a: Vec<String> = Vec::new();
    put(&mut a, "-v");
    put(&mut a, "error");
    put(&mut a, "-show_entries");
    put(&mut a, "format=bit_rate");
    put(&mut a, "-of");
    put(&mut a, "default=nk=1:nw=1");
    put(&mut a, "-i");
    put(&mut a, file);
    assert(texts(a@) =~= container_rate_probe_of(file@));
    a
}

/// The arguments that ask for the summary of all streams.
pub open spec fn streams_probe_of(file: Seq<char>) -> Seq<Seq<char>> {
    seq![
        "-v"@,
        "error"@,
        "-show_entries"@,
        "format=duration:stream=index,codec_type,codec_name,width,height,pix_fmt,r_frame_rate,sample_rate,channels,channel_layout,bit_rate"@,
        "-of"@,
        "default=noprint_wrappers=0:nokey=0"@,
        "-i"@,
        file,
    ]
}

/// The arguments that ask for the summary of all streams.
pub fn streams_probe_args(file: &str) -> (r: Vec<String>)
    ensures
        texts(r@) == streams_probe_of(file@),
{
    let mut a: Vec<String> = Vec::new();
    put(&mut a, "-v");
    put(&mut a, "error");
    put(&mut a, "-show_entries");
    put(
        &mut a,
        "format=duration:stream=index,codec_type,codec_name,width,height,pix_fmt,r_frame_rate,sample_rate,channels,channel_layout,bit_rate",
    );
    put(&mut a, "-of");
    put(&mut a, "default=noprint_wrappers=0:nokey=0");
    put(&mut a, "-i");
    put(&mut a, file);
    assert(texts(a@) =~= streams_probe_of(file@));
    a
}

// ---------------------------------------------------------------- laws
/// Probing succeeds exactly where the video stream has a size.
pub proof fn probe_needs_a_picture(
    video: Option<Seq<u8>>,
    stream_rate: Option<Seq<u8>>,
    container_rate: Option<Seq<u8>>,
    channels: Option<Seq<u8>>,
    streams: Option<Seq<u8>>,
)
    ensures
        probe_of(video, stream_rate, container_rate, channels, streams) is Some <==> video_of(
            video,
        ).w > 0 && video_of(video).h > 0,
        probe_of(video, stream_rate, container_rate, channels, streams) matches Some(p) ==> p.inf.w
            > 0 && p.inf.h > 0 && p.src_kbps >= 0 && p.channels > 0,
{
}

/// The container's bitrate matters only where the video stream's is not known.
pub proof fn stream_rate_comes_first(
    stream: Option<Seq<u8>>,
    container: Option<Seq<u8>>,
    other: Option<Seq<u8>>,
)
    requires
        number_printed(stream) is Some,
    ensures
        source_rate(stream, container) == source_rate(stream, other),
{
}

/// HDR video always comes with known colours.
pub proof fn hdr_has_colors(f: Fields)
    ensures
        info_from(f).hdr ==> {
            &&& info_from(f).primaries.len() > 0 && info_from(f).primaries != "unknown"@
            &&& info_from(f).space.len() > 0 && info_from(f).space != "unknown"@
            &&& info_from(f).range.len() > 0 && info_from(f).range != "unknown"@
        },
{
    reveal_strlit("bt2020");
    reveal_strlit("bt2020nc");
    reveal_strlit("tv");
    reveal_strlit("unknown");
    assert("unknown"@.len() == 7);
}

/// Whether the first line of what a program printed holds a number, with nothing but
/// white space around it.
pub open spec fn first_line_is(b: Seq<u8>, n: int) -> bool {
    exists|before: Seq<char>, after: Seq<char>, rest: Seq<char>|
        {
            &&& all_white(before)
            &&& all_white(after)
            &&& !before.contains('\n')
            &&& !after.contains('\n')
            &&& (after.len() == 0 || after.last() != '\r')
            &&& decoded(b) == #[trigger] (before + dec_int(n) + after + seq!['\n'] + rest)
        }
}

proof fn lemma_printed_number(b: Seq<u8>, n: int)
    requires
        first_line_is(b, n),
    ensures
        lines(decoded(b)).len() > 0,
        trim(lines(decoded(b))[0]) == dec_int(n),
{
    let (x, y, rest) = choose|before: Seq<char>, after: Seq<char>, rest: Seq<char>|
        {
            &&& all_white(before)
            &&& all_white(after)
            &&& !before.contains('\n')
            &&& !after.contains('\n')
            &&& (after.len() == 0 || after.last() != '\r')
            &&& decoded(b) == #[trigger] (before + dec_int(n) + after + seq!['\n'] + rest)
        };
    let d = dec_int(n);
    let m = if n < 0 {
        -n
    } else {
        n
    };
    dec_is_its_value(m);
    assert(is_digit(dec(m)[dec(m).len() - 1]));
    assert(is_digit(dec(m)[0]));
    assert(d.last() == dec(m).last());
    let line = x + d + y;
    assert(!line.contains('\n')) by {
        if line.contains('\n') {
            let i = choose|i: int| 0 <= i < line.len() && line[i] == '\n';
            if i < x.len() {
                assert(line[i] == x[i]);
                assert(x.contains('\n'));
            } else if i < x.len() + d.len() {
                assert(line[i] == d[i - x.len()]);
                if n < 0 && i > x.len() {
                    assert(d[i - x.len()] == dec(m)[i - x.len() - 1]);
                    assert(is_digit(dec(m)[i - x.len() - 1]));
                } else if n >= 0 {
                    assert(is_digit(dec(m)[i - x.len()]));
                }
            } else {
                assert(line[i] == y[i - x.len() - d.len()]);
                assert(y.contains('\n'));
            }
        }
    }
    assert(line.last() == if y.len() > 0 {
        y.last()
    } else {
        d.last()
    });
    assert(decoded(b) =~= line + seq!['\n'] + rest);
    lines_end_at_line_feeds(line, rest);
    white_ends_are_trimmed(x, d, y);
}

/// As many channels are found as ffprobe prints, whatever their number; where it
/// prints none there are two.
pub proof fn channels_are_those_printed(b: Seq<u8>, n: int)
    requires
        first_line_is(b, n),
        n <= i64::MAX,
    ensures
        n > 0 ==> channels_of(Some(b)) == n,
        n == 0 ==> channels_of(Some(b)) == 2,
        channels_of(None) == 2,
{
    lemma_printed_number(b, n);
    only_what_fits_is_read(n);
}

/// Where no channels could be read there are two, and where there are not two they
/// were read.
pub proof fn channels_are_two_only_without_a_number(out: Option<Seq<u8>>)
    ensures
        channels_of(out) != 2 ==> (out matches Some(b) && lines(decoded(b)).len() > 0 && i64_of(
            trim(lines(decoded(b))[0]),
        ) == Some(channels_of(out))),
        out matches Some(b) ==> (lines(decoded(b)).len() > 0 ==> (i64_of(
            trim(lines(decoded(b))[0]),
        ) matches Some(n) ==> (n > 0 ==> channels_of(out) == n) && (n <= 0 ==> channels_of(out)
            == 2))),
        out matches Some(b) ==> (lines(decoded(b)).len() == 0 || i64_of(trim(lines(decoded(b))[0]))
            is None ==> channels_of(out) == 2),
{
}

/// The rate of a source is a thousandth of the bits that ffprobe prints for its video
/// stream, rounded down, or of those for its container; zero where neither has any.
pub proof fn rate_is_that_printed(b: Seq<u8>, n: int, other: Option<Seq<u8>>)
    requires
        first_line_is(b, n),
        0 < n <= i64::MAX,
    ensures
        1000 * source_rate(Some(b), other) <= n < 1000 * source_rate(Some(b), other) + 1000,
        1000 * source_rate(None, Some(b)) <= n < 1000 * source_rate(None, Some(b)) + 1000,
        source_rate(None, None) == 0,
{
    lemma_printed_number(b, n);
    only_what_fits_is_read(n);
}

/// A line sets the field that its key names, and leaves the others alone. White space
/// around the key and the value says nothing, and neither does any other line.
pub proof fn lines_set_their_fields(f: Fields, v: Seq<char>, n: int)
    requires
        is_trimmed(v),
        i64::MIN <= n <= i64::MAX,
    ensures
        after_line(f, "width="@ + dec_int(n)) == (Fields { w: n, ..f }),
        after_line(f, "height="@ + dec_int(n)) == (Fields { h: n, ..f }),
        after_line(f, "bits_per_raw_sample="@ + dec_int(n)) == (Fields { bits: n, ..f }),
        after_line(f, "pix_fmt="@ + v) == (Fields { pix_fmt: v, ..f }),
        after_line(f, "color_transfer="@ + v) == (Fields { trc: v, ..f }),
        after_line(f, "color_primaries="@ + v) == (Fields { primaries: v, ..f }),
        after_line(f, "color_space="@ + v) == (Fields { space: v, ..f }),
        after_line(f, "color_range="@ + v) == (Fields { range: v, ..f }),
        !v.contains('=') ==> after_line(f, v) == f,
{
    reveal_strlit("width");
    reveal_strlit("height");
    reveal_strlit("bits_per_raw_sample");
    reveal_strlit("pix_fmt");
    reveal_strlit("color_transfer");
    reveal_strlit("color_primaries");
    reveal_strlit("color_space");
    reveal_strlit("color_range");
    reveal_strlit("width=");
    reveal_strlit("height=");
    reveal_strlit("bits_per_raw_sample=");
    reveal_strlit("pix_fmt=");
    reveal_strlit("color_transfer=");
    reveal_strlit("color_primaries=");
    reveal_strlit("color_space=");
    reveal_strlit("color_range=");
    let d = dec_int(n);
    lemma_number_is_trimmed(n);
    only_what_fits_is_read(n);
    assert("width="@ =~= "width"@ + seq!['=']);
    assert("height="@ =~= "height"@ + seq!['=']);
    assert("bits_per_raw_sample="@ =~= "bits_per_raw_sample"@ + seq!['=']);
    assert("pix_fmt="@ =~= "pix_fmt"@ + seq!['=']);
    assert("color_transfer="@ =~= "color_transfer"@ + seq!['=']);
    assert("color_primaries="@ =~= "color_primaries"@ + seq!['=']);
    assert("color_space="@ =~= "color_space"@ + seq!['=']);
    assert("color_range="@ =~= "color_range"@ + seq!['=']);
    lemma_key_and_value("width"@, d);
    lemma_key_and_value("height"@, d);
    lemma_key_and_value("bits_per_raw_sample"@, d);
    lemma_key_and_value("pix_fmt"@, v);
    lemma_key_and_value("color_transfer"@, v);
    lemma_key_and_value("color_primaries"@, v);
    lemma_key_and_value("color_space"@, v);
    lemma_key_and_value("color_range"@, v);
    assert("width"@.len() == 5 && "height"@.len() == 6 && "pix_fmt"@.len() == 7
        && "bits_per_raw_sample"@.len() == 19 && "color_transfer"@.len() == 14
        && "color_primaries"@.len() == 15 && "color_space"@.len() == 11 && "color_range"@.len()
        == 11 && "color_space"@[6] == 's' && "color_range"@[6] == 'r');
    if !v.contains('=') {
        text_is_cut_at_its_first_mark(v, '=', Seq::empty());
    }
}

proof fn lemma_number_is_trimmed(n: int)
    ensures
        is_trimmed(dec_int(n)),
{
    let m = if n < 0 {
        -n
    } else {
        n
    };
    dec_is_its_value(m);
    assert(is_digit(dec(m)[dec(m).len() - 1]));
    assert(is_digit(dec(m)[0]));
    assert(dec_int(n).last() == dec(m).last());
}

proof fn lemma_key_and_value(k: Seq<char>, v: Seq<char>)
    requires
        !k.contains('='),
        is_trimmed(k),
        is_trimmed(v),
    ensures
        split_once(k + seq!['='] + v, '=') == Some((k, v)),
        trim(k) == k,
        trim(v) == v,
{
    text_is_cut_at_its_first_mark(k, '=', v);
    white_ends_are_trimmed(Seq::empty(), k, Seq::empty());
    white_ends_are_trimmed(Seq::empty(), v, Seq::empty());
}

/// The size of the picture is the one that was read. It is 10-bit where its samples
/// have more than 8 bits, or, where that is not known, where its format names more;
/// HDR is one of two transfer functions, and then colours that are not known are
/// those of HDR.
pub proof fn picture_is_what_was_read(f: Fields)
    ensures
        ({
            let i = info_from(f);
            &&& i.w == f.w && i.h == f.h && i.trc == f.trc
            &&& f.bits > 8 ==> i.ten_bit
            &&& 0 < f.bits <= 8 ==> !i.ten_bit
            &&& f.bits <= 0 && (contains_text(f.pix_fmt, "p10"@) || contains_text(
                f.pix_fmt,
                "010"@,
            ) || contains_text(f.pix_fmt, "p12"@) || contains_text(f.pix_fmt, "012"@)
                || contains_text(f.pix_fmt, "p16"@)) ==> i.ten_bit
            &&& f.bits <= 0 && f.pix_fmt.len() == 0 ==> !i.ten_bit
            &&& i.hdr <==> f.trc == "smpte2084"@ || f.trc == "arib-std-b67"@
            &&& !i.hdr ==> i.primaries == f.primaries && i.space == f.space && i.range == f.range
            &&& i.hdr && (f.primaries == ""@ || f.primaries == "unknown"@) ==> i.primaries
                == "bt2020"@
            &&& i.hdr && (f.space == ""@ || f.space == "unknown"@) ==> i.space == "bt2020nc"@
            &&& i.hdr && (f.range == ""@ || f.range == "unknown"@) ==> i.range == "tv"@
            &&& i.hdr && f.primaries.len() > 0 && f.primaries != "unknown"@ ==> i.primaries
                == f.primaries
            &&& i.hdr && f.space.len() > 0 && f.space != "unknown"@ ==> i.space == f.space
            &&& i.hdr && f.range.len() > 0 && f.range != "unknown"@ ==> i.range == f.range
            &&& no_fields().w == 0 && no_fields().h == 0 && no_fields().range == "tv"@
        }),
{
    reveal_strlit("");
    reveal_strlit("p10");
    reveal_strlit("010");
    reveal_strlit("p12");
    reveal_strlit("012");
    reveal_strlit("p16");
    reveal_strlit("le");
    reveal_strlit("be");
    if f.pix_fmt.len() == 0 {
        assert forall|p: Seq<char>| p.len() > 0 implies !#[trigger] contains_text(f.pix_fmt, p) by {
            assert forall|i: int| !stands_at(f.pix_fmt, p, i) by {}
        }
    }
}

proof fn lemma_lookup(sec: Seq<(Seq<char>, Seq<char>)>, key: Seq<char>, i: int, k: int)
    requires
        0 <= i <= k < sec.len(),
        sec[k].0 == key,
        forall|j: int| i <= j < k ==> (#[trigger] sec[j]).0 != key,
    ensures
        lookup(sec, key, i) == sec[k].1,
    decreases k - i,
{
    if i < k {
        lemma_lookup(sec, key, i + 1, k);
    }
}

proof fn lemma_lookup_none(sec: Seq<(Seq<char>, Seq<char>)>, key: Seq<char>, i: int)
    requires
        0 <= i <= sec.len(),
        forall|j: int| 0 <= j < sec.len() ==> (#[trigger] sec[j]).0 != key,
    ensures
        lookup(sec, key, i) == ""@,
    decreases sec.len() - i,
{
    if i < sec.len() {
        lemma_lookup_none(sec, key, i + 1);
    }
}

/// The first value for a key counts, and a key that is missing has an empty value.
pub proof fn first_value_counts(
    before: Seq<(Seq<char>, Seq<char>)>,
    key: Seq<char>,
    val: Seq<char>,
    after: Seq<(Seq<char>, Seq<char>)>,
)
    requires
        forall|j: int| 0 <= j < before.len() ==> (#[trigger] before[j]).0 != key,
    ensures
        lookup(before + seq![(key, val)] + after, key, 0) == val,
        lookup(before, key, 0) == ""@,
{
    let sec = before + seq![(key, val)] + after;
    assert(sec[before.len() as int] == (key, val));
    assert forall|j: int| 0 <= j < before.len() implies (#[trigger] sec[j]).0 != key by {
        assert(sec[j] == before[j]);
    }
    lemma_lookup(sec, key, 0, before.len() as int);
    lemma_lookup_none(before, key, 0);
}

/// The first video stream and the first audio stream are summed up as ffprobe
/// describes them; later ones, and streams of other kinds, change nothing.
pub proof fn first_streams_are_summed_up(s: SummaryView, sec: Seq<(Seq<char>, Seq<char>)>)
    ensures
        ({
            let get = |k: Seq<char>| lookup(sec, k, 0);
            let t = with_stream(s, sec);
            let kind = get("codec_type"@);
            &&& kind == "video"@ && s.v_codec.len() == 0 ==> {
                &&& t.v_codec == upper_text(get("codec_name"@))
                &&& t.v_res == get("width"@) + "x"@ + get("height"@)
                &&& t.v_fps == fps_of(get("r_frame_rate"@))
                &&& t.v_fmt == get("pix_fmt"@)
                &&& t.v_bits == bits_of(get("pix_fmt"@))
                &&& t.v_bitrate == kbps_of(get("bit_rate"@))
                &&& t.a_codec == s.a_codec && t.a_layout == s.a_layout && t.a_rate == s.a_rate
                    && t.a_bitrate == s.a_bitrate
            }
            &&& kind == "audio"@ && s.a_codec.len() == 0 ==> {
                &&& t.a_codec == upper_text(get("codec_name"@))
                &&& t.a_bitrate == kbps_of(get("bit_rate"@))
                &&& get("sample_rate"@).len() > 0 ==> t.a_rate == get("sample_rate"@) + " Hz"@
                &&& get("channel_layout"@) == "unknown"@ || get("channel_layout"@).len() == 0
                    ==> t.a_layout == get("channels"@) + " ch"@
                &&& get("channel_layout"@) != "unknown"@ && get("channel_layout"@).len() > 0
                    ==> t.a_layout == get("channel_layout"@) + " ("@ + get("channels"@) + " ch)"@
                &&& t.v_codec == s.v_codec && t.v_res == s.v_res && t.v_fps == s.v_fps && t.v_bits
                    == s.v_bits && t.v_fmt == s.v_fmt && t.v_bitrate == s.v_bitrate
            }
            &&& kind == "video"@ && s.v_codec.len() > 0 ==> t == s
            &&& kind == "audio"@ && s.a_codec.len() > 0 ==> t == s
            &&& kind != "video"@ && kind != "audio"@ ==> t == s
            &&& t.duration == s.duration
        }),
{
    reveal_strlit("video");
    reveal_strlit("audio");
    assert("video"@[0] == 'v' && "audio"@[0] == 'a');
}

/// A section is read from its first mark to its last: its lines of `key=value` are
/// kept in their order, a stream is summed up at its end, and so is the duration of
/// the container.
pub proof fn sections_are_read(r: Reading, k: Seq<char>, v: Seq<char>)
    requires
        k.len() > 0,
        !k.contains('='),
        k[0] != '[',
        is_trimmed(k),
        is_trimmed(v),
    ensures
        read_on(r, "[STREAM]"@).section.len() == 0 && read_on(r, "[STREAM]"@).inside,
        read_on(r, "[FORMAT]"@).section.len() == 0 && read_on(r, "[FORMAT]"@).inside,
        read_on(r, "[STREAM]"@).summary == r.summary,
        read_on(r, "[FORMAT]"@).summary == r.summary,
        !read_on(r, "[/STREAM]"@).inside && read_on(r, "[/STREAM]"@).summary == with_stream(
            r.summary,
            r.section,
        ),
        !read_on(r, "[/FORMAT]"@).inside && read_on(r, "[/FORMAT]"@).summary == with_duration(
            r.summary,
            r.section,
        ),
        r.inside ==> read_on(r, k + seq!['='] + v) == (Reading {
            section: r.section.push((k, v)),
            ..r
        }),
        !r.inside ==> read_on(r, k + seq!['='] + v) == r,
{
    reveal_strlit("[STREAM]");
    reveal_strlit("[FORMAT]");
    reveal_strlit("[/STREAM]");
    reveal_strlit("[/FORMAT]");
    assert("[STREAM]"@.len() == 8 && "[FORMAT]"@.len() == 8 && "[/STREAM]"@.len() == 9
        && "[/FORMAT]"@.len() == 9 && "[STREAM]"@[1] == 'S' && "[FORMAT]"@[1] == 'F'
        && "[/STREAM]"@[2] == 'S' && "[/FORMAT]"@[2] == 'F');
    assert("[STREAM]"@[0] == '[' && "[FORMAT]"@[0] == '[' && "[/STREAM]"@[0] == '['
        && "[/FORMAT]"@[0] == '[');
    let line = k + seq!['='] + v;
    assert(line[0] == k[0]);
    lemma_key_and_value(k, v);
}

/// The duration is the last one in a section, and is kept where there is none.
pub proof fn last_duration_counts(
    s: SummaryView,
    sec: Seq<(Seq<char>, Seq<char>)>,
    key: Seq<char>,
    val: Seq<char>,
)
    ensures
        with_duration(s, sec.push(("duration"@, val))) == (SummaryView {
            duration: quantity_or(val, zero()),
            ..s
        }),
        key != "duration"@ ==> with_duration(s, sec.push((key, val))) == with_duration(s, sec),
        with_duration(s, Seq::empty()) == s,
{
    assert(sec.push((key, val)).drop_last() =~= sec);
}

/// What the probes found together: the picture, the rate and the channels as each
/// probe found them, and the rate shown where the streams show none.
pub proof fn probes_are_put_together(
    video: Option<Seq<u8>>,
    stream_rate: Option<Seq<u8>>,
    container_rate: Option<Seq<u8>>,
    channels: Option<Seq<u8>>,
    streams: Option<Seq<u8>>,
)
    ensures
        probe_of(video, stream_rate, container_rate, channels, streams) is Some <==> video_of(
            video,
        ).w > 0 && video_of(video).h > 0,
        probe_of(video, stream_rate, container_rate, channels, streams) matches Some(p) ==> {
            let s = summary_printed(streams);
            &&& p.inf == video_of(video)
            &&& p.channels == channels_of(channels)
            &&& p.src_kbps == source_rate(stream_rate, container_rate)
            &&& s.v_bitrate.len() > 0 ==> p.streams == s
            &&& s.v_bitrate.len() == 0 && p.src_kbps > 0 ==> p.streams.v_bitrate == dec_int(
                p.src_kbps,
            ) + " kbps"@
            &&& p.streams.a_codec == s.a_codec && p.streams.a_layout == s.a_layout
                && p.streams.a_rate == s.a_rate && p.streams.a_bitrate == s.a_bitrate
                && p.streams.duration == s.duration && p.streams.dur_str == s.dur_str
                && p.streams.v_codec == s.v_codec && p.streams.v_res == s.v_res && p.streams.v_fps
                == s.v_fps && p.streams.v_bits == s.v_bits && p.streams.v_fmt == s.v_fmt
        },
{
}

/// What ffprobe is asked of a file: errors only, and of the first video stream, the
/// first audio stream, the container, or all of them what is needed. The file comes last.
pub proof fn ffprobe_is_asked_about_the_file(file: Seq<char>)
    ensures
        ({
            let v = video_probe_of(file);
            let c = channels_probe_of(file);
            let r = stream_rate_probe_of(file);
            let f = container_rate_probe_of(file);
            let s = streams_probe_of(file);
            &&& v.len() == 10 && c.len() == 10 && r.len() == 10 && f.len() == 8 && s.len() == 8
            &&& sets_at(v, "-v"@, "error"@, 0) && sets_at(c, "-v"@, "error"@, 0)
            &&& sets_at(r, "-v"@, "error"@, 0) && sets_at(f, "-v"@, "error"@, 0)
            &&& sets_at(s, "-v"@, "error"@, 0)
            &&& sets_at(v, "-select_streams"@, "v:0"@, 2)
            &&& sets_at(c, "-select_streams"@, "a:0"@, 2)
            &&& sets_at(r, "-select_streams"@, "v:0"@, 2)
            &&& sets_at(
                v,
                "-show_entries"@,
                "stream=width,height,pix_fmt,bits_per_raw_sample,color_space,color_transfer,color_primaries,color_range"@,
                4,
            )
            &&& sets_at(c, "-show_entries"@, "stream=channels"@, 4)
            &&& sets_at(r, "-show_entries"@, "stream=bit_rate"@, 4)
            &&& sets_at(f, "-show_entries"@, "format=bit_rate"@, 2)
            &&& sets_at(
                s,
                "-show_entries"@,
                "format=duration:stream=index,codec_type,codec_name,width,height,pix_fmt,r_frame_rate,sample_rate,channels,channel_layout,bit_rate"@,
                2,
            )
            &&& sets_at(v, "-of"@, "default=nk=0:nw=1"@, 6)
            &&& sets_at(c, "-of"@, "default=nk=1:nw=1"@, 6)
            &&& sets_at(r, "-of"@, "default=nk=1:nw=1"@, 6)
            &&& sets_at(f, "-of"@, "default=nk=1:nw=1"@, 4)
            &&& sets_at(s, "-of"@, "default=noprint_wrappers=0:nokey=0"@, 4)
            &&& sets_at(v, "-i"@, file, 8) && sets_at(c, "-i"@, file, 8)
            &&& sets_at(r, "-i"@, file, 8) && sets_at(f, "-i"@, file, 6)
            &&& sets_at(s, "-i"@, file, 6)
        }),
{
}

} // verus!
