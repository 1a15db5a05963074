//! What to encode and how: codecs, encoders, crops, and the ffmpeg command line.
use vstd::prelude::*;
use vstd::string::*;
use crate::decimal::{
    float_of, half_product, lemma_pow2_grows, lemma_powers, lemma_rounded_shape,
    lemma_zero_is_rounded, nearest, nearest_whole, product, quotient,
    representable_values_are_kept, rounded, rounding_is_precise, whole, Decimal, Quantity,
};
use crate::natural::{lemma_pow10_positive, lemma_pow2_sum, pow10, pow2};
use crate::number::{
    dec, dec_int, dec_is_its_value, i64_of, is_digit, only_digits_are_read, only_what_fits_is_read,
    print_i64,
};
use crate::path::{
    file_name_has_no_separator, file_name_of, file_stem, file_stem_of, home, home_is_kept,
    is_plain_name, is_sep, is_verbatim, join, joined, joined_name_is_last, lemma_last_dot, parent,
    parent_is_tidy, parent_of, prefix_len, takes_names, Platform,
};
use crate::text::{
    chars_of, concat2, concat3, contains_text, cut_start, decoded, has_text, lemma_texts_push,
    lower_text, lowercase, text_eq, text_of_bytes, texts, trim_start_of,
};

verus! {

/// The extensions of the files that are encoded.
pub const EXTENSIONS: [&'static str; 4] = ["mp4", "mkv", "avi", "mov"];

/// How a 16:9 picture is cropped to 21:9.
#[derive(Clone, Copy, PartialEq, Eq, Structural, Debug)]
pub enum CropMode {
    /// Equal parts from the top and the bottom.
    Centered,
    /// One third from the top, two thirds from the bottom.
    OneThird,
    /// No crop.
    NoCrop,
}

/// The video codec the user chose.
#[derive(Clone, Copy, PartialEq, Eq, Structural, Debug)]
pub enum Codec {
    H264,
    H265,
    Av1,
}

impl Codec {
    /// The name of the codec.
    pub open spec fn spec_label(self) -> Seq<char> {
        match self {
            Codec::H264 => "H264"@,
            Codec::H265 => "H265"@,
            Codec::Av1 => "AV1"@,
        }
    }

    /// The name of the codec.
    pub fn label(&self) -> (r: &'static str)
        ensures
            r@ == self.spec_label(),
    {
        match self {
            Codec::H264 => "H264",
            Codec::H265 => "H265",
            Codec::Av1 => "AV1",
        }
    }

    /// The NVENC (GPU) encoder for the codec.
    pub open spec fn spec_nvenc(self) -> Seq<char> {
        match self {
            Codec::H264 => "h264_nvenc"@,
            Codec::H265 => "hevc_nvenc"@,
            Codec::Av1 => "av1_nvenc"@,
        }
    }

    /// The NVENC (GPU) encoder for the codec.
    pub fn nvenc(&self) -> (r: &'static str)
        ensures
            r@ == self.spec_nvenc(),
    {
        match self {
            Codec::H264 => "h264_nvenc",
            Codec::H265 => "hevc_nvenc",
            Codec::Av1 => "av1_nvenc",
        }
    }
}

/// The encoder that detection settled on.
#[derive(Clone, Copy, PartialEq, Eq, Debug)]
pub enum VideoEncoder {
    /// h264_nvenc, hevc_nvenc or av1_nvenc.
    Nvenc(&'static str),
    /// libx264 or libx265.
    X26x(&'static str),
    /// libsvtav1.
    Svt,
    /// libaom-av1.
    Aom,
}

impl VideoEncoder {
    /// The encoder's name and where it runs.
    pub open spec fn spec_label(self) -> Seq<char> {
        match self {
            VideoEncoder::Nvenc(n) => n@ + " (GPU)"@,
            VideoEncoder::X26x(n) => n@ + " (CPU)"@,
            VideoEncoder::Svt => "libsvtav1 (CPU)"@,
            VideoEncoder::Aom => "libaom-av1 (CPU)"@,
        }
    }

    /// The encoder's name and where it runs.
    pub fn label(&self) -> (r: String)
        ensures
            r@ == self.spec_label(),
    {
        match self {
            VideoEncoder::Nvenc(n) => concat2(*n, " (GPU)"),
            VideoEncoder::X26x(n) => concat2(*n, " (CPU)"),
            VideoEncoder::Svt => "libsvtav1 (CPU)".to_string(),
            VideoEncoder::Aom => "libaom-av1 (CPU)".to_string(),
        }
    }

    /// The codec of what the encoder writes.
    pub open spec fn spec_codec_name(self) -> Seq<char> {
        match self {
            VideoEncoder::Nvenc(n) => if n@ == "h264_nvenc"@ {
                "H264"@
            } else if n@ == "hevc_nvenc"@ {
                "H265"@
            } else {
                "AV1"@
            },
            VideoEncoder::X26x(n) => if n@ == "libx264"@ {
                "H264"@
            } else {
                "H265"@
            },
            _ => "AV1"@,
        }
    }

    /// The codec of what the encoder writes (H264, H265 or AV1).
    pub fn codec_name(&self) -> (r: &'static str)
        ensures
            r@ == self.spec_codec_name(),
    {
        match self {
            VideoEncoder::Nvenc(n) => if text_eq(*n, "h264_nvenc") {
                "H264"
            } else if text_eq(*n, "hevc_nvenc") {
                "H265"
            } else {
                "AV1"
            },
            VideoEncoder::X26x(n) => if text_eq(*n, "libx264") {
                "H264"
            } else {
                "H265"
            },
            _ => "AV1",
        }
    }

    /// Whether the encoder is the one GPU encoder that writes no 10-bit video.
    pub open spec fn is_h264_nvenc(self) -> bool {
        self matches VideoEncoder::Nvenc(n) && n@ == "h264_nvenc"@
    }
}

// ---------------------------------------------------------------- detection
/// The encoder for a codec: the GPU where it works, else the CPU encoder that
/// ffmpeg lists, else the GPU after all.
pub open spec fn is_detected(
    codec: Codec,
    nvenc_works: bool,
    listed: Seq<char>,
    e: VideoEncoder,
) -> bool {
    if nvenc_works {
        e matches VideoEncoder::Nvenc(n) && n@ == codec.spec_nvenc()
    } else {
        match codec {
            Codec::H264 => if contains_text(listed, "libx264"@) {
                e matches VideoEncoder::X26x(n) && n@ == "libx264"@
            } else {
                e matches VideoEncoder::Nvenc(n) && n@ == codec.spec_nvenc()
            },
            Codec::H265 => if contains_text(listed, "libx265"@) {
                e matches VideoEncoder::X26x(n) && n@ == "libx265"@
            } else {
                e matches VideoEncoder::Nvenc(n) && n@ == codec.spec_nvenc()
            },
            Codec::Av1 => if contains_text(listed, "libsvtav1"@) {
                e == VideoEncoder::Svt
            } else if contains_text(listed, "libaom-av1"@) {
                e == VideoEncoder::Aom
            } else {
                e matches VideoEncoder::Nvenc(n) && n@ == codec.spec_nvenc()
            },
        }
    }
}

/// Picks the encoder for a codec. `nvenc_works` says whether a test encode on
/// the GPU went through, `listed` is the lower-case list of ffmpeg's encoders.
pub fn pick_encoder(codec: Codec, nvenc_works: bool, listed: &str) -> (r: VideoEncoder)
    ensures
        is_detected(codec, nvenc_works, listed@, r),
{
    let nv = codec.nvenc();
    if nvenc_works {
        return VideoEncoder::Nvenc(nv);
    }
    let l = chars_of(listed);
    match codec {
        Codec::H264 => if has_text(l.as_slice(), "libx264") {
            VideoEncoder::X26x("libx264")
        } else {
            VideoEncoder::Nvenc(nv)
        },
        Codec::H265 => if has_text(l.as_slice(), "libx265") {
            VideoEncoder::X26x("libx265")
        } else {
            VideoEncoder::Nvenc(nv)
        },
        Codec::Av1 => if has_text(l.as_slice(), "libsvtav1") {
            VideoEncoder::Svt
        } else if has_text(l.as_slice(), "libaom-av1") {
            VideoEncoder::Aom
        } else {
            VideoEncoder::Nvenc(nv)
        },
    }
}

/// The bytes a program wrote, where it could be run.
pub open spec fn bytes_of(out: &Option<Vec<u8>>) -> Option<Seq<u8>> {
    match out {
        Some(b) => Some(b@),
        None => None,
    }
}

/// The list of encoders in what `ffmpeg -encoders` wrote, in lower case.
pub open spec fn encoder_list(out: Option<Seq<u8>>) -> Seq<char> {
    match out {
        Some(b) => lower_text(decoded(b)),
        None => ""@,
    }
}

/// Reads the list of encoders that ffmpeg printed. Empty if it could not run.
pub fn list_encoders(out: &Option<Vec<u8>>) -> (r: String)
    ensures
        r@ == encoder_list(bytes_of(out)),
{
    match out {
        Some(b) => lowercase(text_of_bytes(b.as_slice()).as_str()),
        None => "".to_string(),
    }
}

/// Detects the encoder for a codec from a test encode on the GPU and from what
/// `ffmpeg -encoders` printed.
pub fn detect_encoder(codec: Codec, nvenc_works: bool, encoders: &Option<Vec<u8>>) -> (r:
    VideoEncoder)
    ensures
        is_detected(codec, nvenc_works, encoder_list(bytes_of(encoders)), r),
{
    let listed = list_encoders(encoders);
    pick_encoder(codec, nvenc_works, listed.as_str())
}

/// The arguments of the test encode that shows whether a GPU encoder works.
pub open spec fn nvenc_test_of(encoder: Seq<char>) -> Seq<Seq<char>> {
    seq![
        "-hide_banner"@,
        "-loglevel"@,
        "error"@,
        "-f"@,
        "lavfi"@,
        "-i"@,
        "color=c=black:s=256x256:r=30"@,
        "-frames:v"@,
        "1"@,
        "-c:v"@,
        encoder,
        "-f"@,
        "null"@,
        "-"@,
    ]
}

/// The arguments of the test encode: one black frame, written nowhere.
pub fn nvenc_test_args(encoder: &str) -> (r: Vec<String>)
    ensures
        texts(r@) == nvenc_test_of(encoder@),
{
    let r = vec![
        "-hide_banner".to_string(),
        "-loglevel".to_string(),
        "error".to_string(),
        "-f".to_string(),
        "lavfi".to_string(),
        "-i".to_string(),
        "color=c=black:s=256x256:r=30".to_string(),
        "-frames:v".to_string(),
        "1".to_string(),
        "-c:v".to_string(),
        encoder.to_string(),
        "-f".to_string(),
        "null".to_string(),
        "-".to_string(),
    ];
    assert(texts(r@) =~= nvenc_test_of(encoder@));
    r
}

/// The arguments that make ffmpeg list its encoders.
pub fn list_encoders_args() -> (r: Vec<String>)
    ensures
        texts(r@) == seq!["-hide_banner"@, "-encoders"@],
{
    let r = vec!["-hide_banner".to_string(), "-encoders".to_string()];
    assert(texts(r@) =~= seq!["-hide_banner"@, "-encoders"@]);
    r
}

// ---------------------------------------------------------------- presets
/// The number of a preset such as `p5`; 7 where there is none.
pub open spec fn preset_of(preset: Seq<char>) -> int {
    match i64_of(trim_start_of(preset, 'p', 'P')) {
        Some(n) => n,
        None => 7,
    }
}

/// The number of a preset.
pub fn preset_num(preset: &str) -> (r: i64)
    ensures
        r == preset_of(preset@),
{
    let c = chars_of(preset);
    let t = cut_start(c.as_slice(), 'p', 'P');
    match crate::number::parse_i64(t.as_slice()) {
        Some(n) => n,
        None => 7,
    }
}

/// `n` held between `lo` and `hi`.
pub open spec fn clamp(n: int, lo: int, hi: int) -> int {
    if n < lo {
        lo
    } else if n > hi {
        hi
    } else {
        n
    }
}

fn clamp_i64(n: i64, lo: i64, hi: i64) -> (r: i64)
    ensures
        r == clamp(n as int, lo as int, hi as int),
{
    if n < lo {
        lo
    } else if n > hi {
        hi
    } else {
        n
    }
}

/// The NVENC preset for a preset number. NVENC counts from fast to slow, the
/// presets here from slow to fast.
pub open spec fn nvenc_preset_of(n: int) -> Seq<char> {
    "p"@ + dec_int(clamp(8 - n, 1, 7))
}

/// The NVENC preset for a preset number.
pub fn nvenc_preset(n: i64) -> (r: String)
    ensures
        r@ == nvenc_preset_of(n as int),
{
    let m = clamp_i64(n, 1, 7);
    concat2("p", print_i64(8 - m).as_str())
}

/// The x264/x265 preset for a preset number.
pub open spec fn x26x_preset_of(n: int) -> Seq<char> {
    if n == 1 {
        "veryslow"@
    } else if n == 2 {
        "slower"@
    } else if n == 3 {
        "slow"@
    } else if n == 4 {
        "medium"@
    } else if n == 5 {
        "fast"@
    } else if n == 6 {
        "faster"@
    } else {
        "veryfast"@
    }
}

/// The x264/x265 preset for a preset number (1 is quality, 7 is speed).
pub fn x26x_preset(n: i64) -> (r: &'static str)
    ensures
        r@ == x26x_preset_of(n as int),
{
    if n == 1 {
        "veryslow"
    } else if n == 2 {
        "slower"
    } else if n == 3 {
        "slow"
    } else if n == 4 {
        "medium"
    } else if n == 5 {
        "fast"
    } else if n == 6 {
        "faster"
    } else {
        "veryfast"
    }
}

// ---------------------------------------------------------------- crop
/// The even number next to `n` towards zero.
pub open spec fn even(n: int) -> int {
    if n >= 0 {
        n - n % 2
    } else {
        -(-n - (-n) % 2)
    }
}

/// The height of a 21:9 picture of a width, in the ratio of 3440 to 1440, as
/// floating point numbers give it.
pub open spec fn wide_height(w: int) -> int {
    even(nearest_whole(quotient(product(float_of(w), 1440), whole(3440))))
}

/// A third of a height, as floating point numbers give it.
pub open spec fn third_of(cut: int) -> int {
    nearest_whole(quotient(float_of(cut), whole(3)))
}

/// The height and the vertical offset of a crop, where there is one to make.
pub open spec fn crop_of(w: int, h: int, mode: CropMode) -> Option<(int, int)> {
    let new_h = wide_height(w);
    let cut = h - new_h;
    if mode == CropMode::NoCrop || new_h >= h {
        None
    } else if mode == CropMode::Centered {
        Some((new_h, even(cut / 2)))
    } else {
        Some((new_h, even(third_of(cut))))
    }
}

/// A crop as ffmpeg's filter takes it: width, height and the two offsets.
pub open spec fn crop_text(w: int, c: (int, int)) -> Seq<char> {
    dec_int(w) + ":"@ + dec_int(c.0) + ":0:"@ + dec_int(c.1)
}

/// Whether the height that is cut away is a machine number.
pub open spec fn crop_fits(w: int, h: int) -> bool {
    h - wide_height(w) <= i64::MAX
}

fn round_to_even(n: i64) -> (r: i64)
    ensures
        r == even(n as int),
{
    if n >= 0 {
        n - n % 2
    } else {
        let m: i128 = -(n as i128);
        (-(m - m % 2)) as i64
    }
}

fn find_wide_height(w: i64) -> (r: i64)
    ensures
        r == wide_height(w as int),
{
    let h = Decimal::from_i64(w).times(1440).over(&Decimal::from_u64(3440));
    round_to_even(h.to_nearest())
}

/// The height and the vertical offset of a crop.
fn crop_box(w: i64, h: i64, mode: CropMode) -> (r: Option<(i64, i64)>)
    requires
        crop_fits(w as int, h as int),
    ensures
        match r {
            Some(c) => crop_of(w as int, h as int, mode) == Some((c.0 as int, c.1 as int)),
            None => crop_of(w as int, h as int, mode) is None,
        },
{
    if mode == CropMode::NoCrop {
        return None;
    }
    let new_h: i64 = find_wide_height(w);
    if new_h >= h {
        return None;
    }
    let cut: i64 = h - new_h;
    let y: i64 = if mode == CropMode::Centered {
        cut / 2
    } else {
        Decimal::from_i64(cut).over(&Decimal::from_u64(3)).to_nearest()
    };
    Some((new_h, round_to_even(y)))
}

/// Computes the 16:9 to 21:9 crop. Returns "W:H:0:Y", or nothing where the
/// picture is already as wide or no crop is asked for.
pub fn calc_crop(w: i64, h: i64, mode: CropMode) -> (r: Option<String>)
    requires
        crop_fits(w as int, h as int),
    ensures
        match r {
            Some(s) => crop_of(w as int, h as int, mode) matches Some(c) && s@ == crop_text(
                w as int,
                c,
            ),
            None => crop_of(w as int, h as int, mode) is None,
        },
{
    match crop_box(w, h, mode) {
        Some(c) => Some(print_crop(w, c)),
        None => None,
    }
}

fn print_crop(w: i64, c: (i64, i64)) -> (r: String)
    ensures
        r@ == crop_text(w as int, (c.0 as int, c.1 as int)),
{
    let mut r = concat3(print_i64(w).as_str(), ":", print_i64(c.0).as_str());
    r.append(":0:");
    r.append(print_i64(c.1).as_str());
    r
}

// ---------------------------------------------------------------- sources
/// What is known of the first video stream.
pub struct VideoInfo {
    pub w: i64,
    pub h: i64,
    pub hdr: bool,
    /// The source has more than 8 bits per sample.
    pub ten_bit: bool,
    pub trc: String,
    pub primaries: String,
    pub space: String,
    pub range: String,
}

/// The contents of a [`VideoInfo`].
#[verifier::ext_equal]
pub struct InfoView {
    pub w: int,
    pub h: int,
    pub hdr: bool,
    pub ten_bit: bool,
    pub trc: Seq<char>,
    pub primaries: Seq<char>,
    pub space: Seq<char>,
    pub range: Seq<char>,
}

impl VideoInfo {
    pub open spec fn view(&self) -> InfoView {
        InfoView {
            w: self.w as int,
            h: self.h as int,
            hdr: self.hdr,
            ten_bit: self.ten_bit,
            trc: self.trc@,
            primaries: self.primaries@,
            space: self.space@,
            range: self.range@,
        }
    }
}

/// What is shown of the streams of a file. Every field but the duration is text
/// ready to be shown.
pub struct StreamSummary {
    /// Seconds; zero where they are not known.
    pub duration: Decimal,
    pub dur_str: String,
    pub v_codec: String,
    pub v_res: String,
    pub v_fps: String,
    pub v_bits: String,
    pub v_fmt: String,
    pub v_bitrate: String,
    pub a_codec: String,
    pub a_layout: String,
    pub a_rate: String,
    pub a_bitrate: String,
}

/// The contents of a [`StreamSummary`].
#[verifier::ext_equal]
pub struct SummaryView {
    pub duration: Quantity,
    pub dur_str: Seq<char>,
    pub v_codec: Seq<char>,
    pub v_res: Seq<char>,
    pub v_fps: Seq<char>,
    pub v_bits: Seq<char>,
    pub v_fmt: Seq<char>,
    pub v_bitrate: Seq<char>,
    pub a_codec: Seq<char>,
    pub a_layout: Seq<char>,
    pub a_rate: Seq<char>,
    pub a_bitrate: Seq<char>,
}

/// The summary of which nothing is known.
pub open spec fn blank_summary() -> SummaryView {
    SummaryView {
        duration: crate::decimal::zero(),
        dur_str: ""@,
        v_codec: ""@,
        v_res: ""@,
        v_fps: ""@,
        v_bits: ""@,
        v_fmt: ""@,
        v_bitrate: ""@,
        a_codec: ""@,
        a_layout: ""@,
        a_rate: ""@,
        a_bitrate: ""@,
    }
}

impl StreamSummary {
    pub open spec fn view(&self) -> SummaryView {
        SummaryView {
            duration: self.duration@,
            dur_str: self.dur_str@,
            v_codec: self.v_codec@,
            v_res: self.v_res@,
            v_fps: self.v_fps@,
            v_bits: self.v_bits@,
            v_fmt: self.v_fmt@,
            v_bitrate: self.v_bitrate@,
            a_codec: self.a_codec@,
            a_layout: self.a_layout@,
            a_rate: self.a_rate@,
            a_bitrate: self.a_bitrate@,
        }
    }

    pub open spec fn wf(&self) -> bool {
        self.duration.wf()
    }

    /// The summary of which nothing is known.
    pub fn blank() -> (r: StreamSummary)
        ensures
            r.wf(),
            r@ == blank_summary(),
    {
        StreamSummary {
            duration: Decimal::zero(),
            dur_str: "".to_string(),
            v_codec: "".to_string(),
            v_res: "".to_string(),
            v_fps: "".to_string(),
            v_bits: "".to_string(),
            v_fmt: "".to_string(),
            v_bitrate: "".to_string(),
            a_codec: "".to_string(),
            a_layout: "".to_string(),
            a_rate: "".to_string(),
            a_bitrate: "".to_string(),
        }
    }

    /// A copy.
    pub fn dup(&self) -> (r: StreamSummary)
        requires
            self.wf(),
        ensures
            r.wf(),
            r@ == self@,
    {
        StreamSummary {
            duration: self.duration.dup(),
            dur_str: self.dur_str.clone(),
            v_codec: self.v_codec.clone(),
            v_res: self.v_res.clone(),
            v_fps: self.v_fps.clone(),
            v_bits: self.v_bits.clone(),
            v_fmt: self.v_fmt.clone(),
            v_bitrate: self.v_bitrate.clone(),
            a_codec: self.a_codec.clone(),
            a_layout: self.a_layout.clone(),
            a_rate: self.a_rate.clone(),
            a_bitrate: self.a_bitrate.clone(),
        }
    }
}

/// What probing an input found.
pub struct ProbeResult {
    pub inf: VideoInfo,
    pub streams: StreamSummary,
    pub src_kbps: i64,
    pub channels: i64,
}

/// The contents of a [`ProbeResult`].
#[verifier::ext_equal]
pub struct ProbeView {
    pub inf: InfoView,
    pub streams: SummaryView,
    pub src_kbps: int,
    pub channels: int,
}

impl ProbeResult {
    pub open spec fn view(&self) -> ProbeView {
        ProbeView {
            inf: self.inf@,
            streams: self.streams@,
            src_kbps: self.src_kbps as int,
            channels: self.channels as int,
        }
    }

    pub open spec fn wf(&self) -> bool {
        self.streams.wf()
    }
}

// ---------------------------------------------------------------- rates
/// The bitrate wanted for a picture. The longest side decides, so an upright
/// 4K picture counts as 4K.
pub open spec fn target_rate(inf: InfoView, high: int, low: int) -> int {
    if inf.w >= 3000 || inf.h >= 3000 {
        high
    } else {
        low
    }
}

/// Whether the source's own bitrate is below the one wanted.
pub open spec fn is_capped(p: ProbeView, high: int, low: int) -> bool {
    0 < p.src_kbps < target_rate(p.inf, high, low)
}

/// The bitrate of the output: the one wanted, but no more than the source has.
pub open spec fn video_rate(p: ProbeView, high: int, low: int) -> int {
    if is_capped(p, high, low) {
        p.src_kbps
    } else {
        target_rate(p.inf, high, low)
    }
}

/// The highest rate allowed for a moment: half as much again, as floating point
/// numbers give it.
pub open spec fn max_rate(b: int) -> int {
    nearest_whole(half_product(float_of(b), 3))
}

/// The bitrate of the audio, by its channels.
pub open spec fn audio_rate(channels: int) -> int {
    if channels * 64 > 192 {
        channels * 64
    } else {
        192
    }
}

/// Whether the numbers of a job are machine numbers.
pub open spec fn job_fits(p: ProbeView, high: int, low: int) -> bool {
    &&& crop_fits(p.inf.w, p.inf.h)
    &&& i64::MIN <= video_rate(p, high, low) * 2 <= i64::MAX
    &&& i64::MIN <= p.channels * 64 <= i64::MAX
}

/// Tells whether the numbers of a job are machine numbers.
pub fn can_build(p: &ProbeResult, high_kbps: i64, low_kbps: i64) -> (r: bool)
    ensures
        r == job_fits(p@, high_kbps as int, low_kbps as int),
{
    let inf = &p.inf;
    let target: i64 = if inf.w >= 3000 || inf.h >= 3000 {
        high_kbps
    } else {
        low_kbps
    };
    let b: i64 = if p.src_kbps > 0 && p.src_kbps < target {
        p.src_kbps
    } else {
        target
    };
    let new_h: i64 = find_wide_height(inf.w);
    let limit: i128 = i64::MAX as i128;
    let low: i128 = i64::MIN as i128;
    let cut: i128 = inf.h as i128 - new_h as i128;
    let twice: i128 = b as i128 * 2;
    let audio: i128 = p.channels as i128 * 64;
    cut <= limit && low <= twice && twice <= limit && low <= audio && audio <= limit
}

/// A rate in thousands, as ffmpeg takes it.
pub open spec fn kilo(n: int) -> Seq<char> {
    dec_int(n) + "k"@
}

// ---------------------------------------------------------------- arguments
/// The arguments for a bitrate with its bounds.
pub open spec fn rate_args(b: int) -> Seq<Seq<char>> {
    seq!["-b:v"@, kilo(b), "-maxrate"@, kilo(max_rate(b)), "-bufsize"@, kilo(b * 2)]
}

/// The arguments for an encoder at a preset and a bitrate.
pub open spec fn encoder_args(enc: VideoEncoder, n: int, b: int) -> Seq<Seq<char>> {
    match enc {
        VideoEncoder::Nvenc(name) => seq![
            "-c:v"@,
            name@,
            "-preset"@,
            nvenc_preset_of(n),
            "-rc"@,
            "vbr"@,
        ] + rate_args(b),
        VideoEncoder::X26x(name) => seq!["-c:v"@, name@, "-preset"@, x26x_preset_of(n)] + rate_args(
            b,
        ),
        VideoEncoder::Svt => seq![
            "-c:v"@,
            "libsvtav1"@,
            "-preset"@,
            dec_int(clamp(n, 0, 13)),
            "-b:v"@,
            kilo(b),
        ],
        VideoEncoder::Aom => seq![
            "-c:v"@,
            "libaom-av1"@,
            "-row-mt"@,
            "1"@,
            "-cpu-used"@,
            dec_int(clamp(n - 1, 0, 8)),
        ] + rate_args(b),
    }
}

/// The arguments for a crop.
pub open spec fn crop_args(w: int, c: Option<(int, int)>) -> Seq<Seq<char>> {
    match c {
        Some(c) => seq!["-vf"@, "crop="@ + crop_text(w, c)],
        None => seq![],
    }
}

/// Whether the output keeps the depth of a 10-bit source.
pub open spec fn keeps_ten(ten_bit: bool, enc: VideoEncoder) -> bool {
    ten_bit && !enc.is_h264_nvenc()
}

/// The pixel format of the output.
pub open spec fn pixel_format(ten_bit: bool, enc: VideoEncoder) -> Seq<char> {
    if keeps_ten(ten_bit, enc) {
        if enc is Nvenc {
            "p010le"@
        } else {
            "yuv420p10le"@
        }
    } else if enc is Nvenc {
        "nv12"@
    } else {
        "yuv420p"@
    }
}

/// The depth of the output, as it is shown.
pub open spec fn depth(ten_bit: bool, enc: VideoEncoder) -> Seq<char> {
    if keeps_ten(ten_bit, enc) {
        "10-bit"@
    } else {
        "8-bit"@
    }
}

/// The arguments for the pixel format, which is forced only to keep 10 bits.
pub open spec fn pixel_args(ten_bit: bool, enc: VideoEncoder) -> Seq<Seq<char>> {
    if keeps_ten(ten_bit, enc) {
        seq!["-pix_fmt"@, pixel_format(ten_bit, enc)]
    } else {
        seq![]
    }
}

/// The arguments that carry HDR colours over.
pub open spec fn color_args(inf: InfoView) -> Seq<Seq<char>> {
    if inf.hdr {
        seq![
            "-color_primaries"@,
            inf.primaries,
            "-color_trc"@,
            inf.trc,
            "-colorspace"@,
            inf.space,
            "-color_range"@,
            inf.range,
        ]
    } else {
        seq![]
    }
}

/// The arguments for the audio and the container.
pub open spec fn tail_args(abr: int, output: Seq<char>) -> Seq<Seq<char>> {
    seq![
        "-af"@,
        "aformat=channel_layouts=7.1|5.1|stereo|mono"@,
        "-c:a"@,
        "aac"@,
        "-b:a"@,
        kilo(abr),
        "-movflags"@,
        "+faststart"@,
        output,
    ]
}

/// The ffmpeg arguments for a job.
pub open spec fn job_args(
    input: Seq<char>,
    output: Seq<char>,
    p: ProbeView,
    mode: CropMode,
    preset: Seq<char>,
    high: int,
    low: int,
    enc: VideoEncoder,
) -> Seq<Seq<char>> {
    seq!["-hide_banner"@, "-y"@, "-hwaccel"@, "cuda"@, "-i"@, input] + crop_args(
        p.inf.w,
        crop_of(p.inf.w, p.inf.h, mode),
    ) + seq!["-map"@, "0:0"@, "-map"@, "0:1"@] + encoder_args(
        enc,
        preset_of(preset),
        video_rate(p, high, low),
    ) + pixel_args(p.inf.ten_bit, enc) + color_args(p.inf) + tail_args(
        audio_rate(p.channels),
        output,
    )
}

/// The line that describes a job.
pub open spec fn job_info(
    p: ProbeView,
    mode: CropMode,
    high: int,
    low: int,
    enc: VideoEncoder,
) -> Seq<char> {
    dec_int(p.inf.w) + "x"@ + dec_int(p.inf.h) + " -> "@ + kilo(video_rate(p, high, low)) + (
    if is_capped(p, high, low) {
        " (orig)"@
    } else {
        ""@
    }) + " · "@ + enc.spec_label() + (if keeps_ten(p.inf.ten_bit, enc) {
        " 10-bit"@
    } else if p.inf.ten_bit {
        " 8-bit(!)"@
    } else {
        ""@
    }) + (match crop_of(p.inf.w, p.inf.h, mode) {
        Some(c) => " crop["@ + crop_text(p.inf.w, c) + "]"@,
        None => ""@,
    }) + (if p.inf.hdr {
        " HDR"@
    } else {
        ""@
    })
}

/// The summary of what a job writes.
pub open spec fn job_target(
    p: ProbeView,
    mode: CropMode,
    high: int,
    low: int,
    enc: VideoEncoder,
) -> SummaryView {
    SummaryView {
        duration: p.streams.duration,
        dur_str: p.streams.dur_str,
        v_codec: enc.spec_codec_name(),
        v_res: match crop_of(p.inf.w, p.inf.h, mode) {
            Some(c) => dec_int(p.inf.w) + "x"@ + dec_int(c.0),
            None => p.streams.v_res,
        },
        v_fps: p.streams.v_fps,
        v_bits: depth(p.inf.ten_bit, enc),
        v_fmt: pixel_format(p.inf.ten_bit, enc),
        v_bitrate: dec_int(video_rate(p, high, low)) + " kbps"@,
        a_codec: "AAC"@,
        a_layout: p.streams.a_layout,
        a_rate: p.streams.a_rate,
        a_bitrate: dec_int(audio_rate(p.channels)) + " kbps"@,
    }
}

/// What a job is run with: its arguments, the line that describes it, and the
/// summary of what it writes.
pub open spec fn args_of(
    input: Seq<char>,
    output: Seq<char>,
    p: ProbeView,
    mode: CropMode,
    preset: Seq<char>,
    high: int,
    low: int,
    enc: VideoEncoder,
) -> (Seq<Seq<char>>, Seq<char>, SummaryView) {
    (
        job_args(input, output, p, mode, preset, high, low, enc),
        job_info(p, mode, high, low, enc),
        job_target(p, mode, high, low, enc),
    )
}

/// Appends one argument.
pub(crate) fn put(args: &mut Vec<String>, s: &str)
    ensures
        texts(final(args)@) == texts(old(args)@).push(s@),
{
    let t = s.to_string();
    proof {
        lemma_texts_push(args@, t);
    }
    args.push(t);
}

fn print_kilo(n: i64) -> (r: String)
    ensures
        r@ == kilo(n as int),
{
    concat2(print_i64(n).as_str(), "k")
}

fn put_rates(args: &mut Vec<String>, b: i64)
    requires
        i64::MIN <= b * 2 <= i64::MAX,
    ensures
        texts(final(args)@) == texts(old(args)@) + rate_args(b as int),
{
    let ghost before = texts(args@);
    let m: i64 = Decimal::from_i64(b).times_half(3).to_nearest();
    put(args, "-b:v");
    put(args, print_kilo(b).as_str());
    put(args, "-maxrate");
    put(args, print_kilo(m).as_str());
    put(args, "-bufsize");
    put(args, print_kilo(b * 2).as_str());
    assert(texts(args@) =~= before + rate_args(b as int));
}

fn put_encoder(args: &mut Vec<String>, enc: VideoEncoder, n: i64, b: i64)
    requires
        i64::MIN <= b * 2 <= i64::MAX,
    ensures
        texts(final(args)@) == texts(old(args)@) + encoder_args(enc, n as int, b as int),
{
    let ghost before = texts(args@);
    put(args, "-c:v");
    match enc {
        VideoEncoder::Nvenc(name) => {
            put(args, name);
            put(args, "-preset");
            put(args, nvenc_preset(n).as_str());
            put(args, "-rc");
            put(args, "vbr");
            put_rates(args, b);
        },
        VideoEncoder::X26x(name) => {
            put(args, name);
            put(args, "-preset");
            put(args, x26x_preset(n));
            put_rates(args, b);
        },
        VideoEncoder::Svt => {
            put(args, "libsvtav1");
            put(args, "-preset");
            put(args, print_i64(clamp_i64(n, 0, 13)).as_str());
            put(args, "-b:v");
            put(args, print_kilo(b).as_str());
        },
        VideoEncoder::Aom => {
            put(args, "libaom-av1");
            put(args, "-row-mt");
            put(args, "1");
            put(args, "-cpu-used");
            put(args, print_i64(clamp_i64(n, 1, 9) - 1).as_str());
            put_rates(args, b);
        },
    }
    assert(texts(args@) =~= before + encoder_args(enc, n as int, b as int));
}

fn is_nvenc(enc: VideoEncoder) -> (r: bool)
    ensures
        r == (enc is Nvenc),
{
    match enc {
        VideoEncoder::Nvenc(_) => true,
        _ => false,
    }
}

fn keeps_10(ten_bit: bool, enc: VideoEncoder) -> (r: bool)
    ensures
        r == keeps_ten(ten_bit, enc),
{
    ten_bit && !(match enc {
        VideoEncoder::Nvenc(n) => text_eq(n, "h264_nvenc"),
        _ => false,
    })
}

fn target_format(ten_bit: bool, enc: VideoEncoder) -> (r: &'static str)
    ensures
        r@ == pixel_format(ten_bit, enc),
{
    if keeps_10(ten_bit, enc) {
        if is_nvenc(enc) {
            "p010le"
        } else {
            "yuv420p10le"
        }
    } else if is_nvenc(enc) {
        "nv12"
    } else {
        "yuv420p"
    }
}

fn put_colors(args: &mut Vec<String>, inf: &VideoInfo)
    ensures
        texts(final(args)@) == texts(old(args)@) + color_args(inf@),
{
    let ghost before = texts(args@);
    if inf.hdr {
        put(args, "-color_primaries");
        put(args, inf.primaries.as_str());
        put(args, "-color_trc");
        put(args, inf.trc.as_str());
        put(args, "-colorspace");
        put(args, inf.space.as_str());
        put(args, "-color_range");
        put(args, inf.range.as_str());
    }
    assert(texts(args@) =~= before + color_args(inf@));
}

fn put_tail(args: &mut Vec<String>, abr: i64, output: &str)
    ensures
        texts(final(args)@) == texts(old(args)@) + tail_args(abr as int, output@),
{
    let ghost before = texts(args@);
    put(args, "-af");
    put(args, "aformat=channel_layouts=7.1|5.1|stereo|mono");
    put(args, "-c:a");
    put(args, "aac");
    put(args, "-b:a");
    put(args, print_kilo(abr).as_str());
    put(args, "-movflags");
    put(args, "+faststart");
    put(args, output);
    assert(texts(args@) =~= before + tail_args(abr as int, output@));
}

fn describe(
    inf: &VideoInfo,
    bitrate: i64,
    capped: bool,
    crop: Option<(i64, i64)>,
    enc: VideoEncoder,
    Ghost(c): Ghost<Option<(int, int)>>,
) -> (r: String)
    requires
        match crop {
            Some(b) => c == Some((b.0 as int, b.1 as int)),
            None => c is None,
        },
    ensures
        r@ == dec_int(inf@.w) + "x"@ + dec_int(inf@.h) + " -> "@ + kilo(bitrate as int) + (
        if capped {
            " (orig)"@
        } else {
            ""@
        }) + " · "@ + enc.spec_label() + (if keeps_ten(inf@.ten_bit, enc) {
            " 10-bit"@
        } else if inf@.ten_bit {
            " 8-bit(!)"@
        } else {
            ""@
        }) + (match c {
            Some(c) => " crop["@ + crop_text(inf@.w, c) + "]"@,
            None => ""@,
        }) + (if inf@.hdr {
            " HDR"@
        } else {
            ""@
        }),
{
    let mut r = concat3(print_i64(inf.w).as_str(), "x", print_i64(inf.h).as_str());
    r.append(" -> ");
    r.append(print_kilo(bitrate).as_str());
    r.append(
        if capped {
            " (orig)"
        } else {
            ""
        },
    );
    r.append(" · ");
    r.append(enc.label().as_str());
    r.append(
        if keeps_10(inf.ten_bit, enc) {
            " 10-bit"
        } else if inf.ten_bit {
            " 8-bit(!)"
        } else {
            ""
        },
    );
    let part = match crop {
        Some(b) => concat3(" crop[", print_crop(inf.w, b).as_str(), "]"),
        None => "".to_string(),
    };
    r.append(part.as_str());
    r.append(
        if inf.hdr {
            " HDR"
        } else {
            ""
        },
    );
    r
}

/// Builds the ffmpeg arguments that turn `input` into `output`, the line that
/// describes the job, and the summary of what it writes. `input` may be a local
/// path or a URL.
pub fn build_args(
    input: &str,
    output: &str,
    p: &ProbeResult,
    crop_mode: CropMode,
    preset: &str,
    high_kbps: i64,
    low_kbps: i64,
    enc: VideoEncoder,
) -> (r: (Vec<String>, String, StreamSummary))
    requires
        p.wf(),
        job_fits(p@, high_kbps as int, low_kbps as int),
    ensures
        r.2.wf(),
        (texts(r.0@), r.1@, r.2@) == args_of(
            input@,
            output@,
            p@,
            crop_mode,
            preset@,
            high_kbps as int,
            low_kbps as int,
            enc,
        ),
{
    let inf = &p.inf;
    let target_kbps: i64 = if inf.w >= 3000 || inf.h >= 3000 {
        high_kbps
    } else {
        low_kbps
    };
    let capped = p.src_kbps > 0 && p.src_kbps < target_kbps;
    let bitrate: i64 = if capped {
        p.src_kbps
    } else {
        target_kbps
    };
    let crop = crop_box(inf.w, inf.h, crop_mode);
    let ghost c = crop_of(p@.inf.w, p@.inf.h, crop_mode);
    let abr: i64 = if p.channels * 64 > 192 {
        p.channels * 64
    } else {
        192
    };

    let mut args: Vec<String> = Vec::new();
    assert(texts(args@) =~= Seq::<Seq<char>>::empty());
    put(&mut args, "-hide_banner");
    put(&mut args, "-y");
    put(&mut args, "-hwaccel");
    put(&mut args, "cuda");
    put(&mut args, "-i");
    put(&mut args, input);
    assert(texts(args@) =~= seq!["-hide_banner"@, "-y"@, "-hwaccel"@, "cuda"@, "-i"@, input@]);
    let ghost part = texts(args@);
    match crop {
        Some(b) => {
            put(&mut args, "-vf");
            put(&mut args, concat2("crop=", print_crop(inf.w, b).as_str()).as_str());
        },
        None => {},
    }
    assert(texts(args@) =~= part + crop_args(p@.inf.w, c));
    let ghost part = texts(args@);
    put(&mut args, "-map");
    put(&mut args, "0:0");
    put(&mut args, "-map");
    put(&mut args, "0:1");
    assert(texts(args@) =~= part + seq!["-map"@, "0:0"@, "-map"@, "0:1"@]);
    put_encoder(&mut args, enc, preset_num(preset), bitrate);
    let tgt_pf = target_format(inf.ten_bit, enc);
    let ten = keeps_10(inf.ten_bit, enc);
    let ghost part = texts(args@);
    if ten {
        put(&mut args, "-pix_fmt");
        put(&mut args, tgt_pf);
    }
    assert(texts(args@) =~= part + pixel_args(p@.inf.ten_bit, enc));
    put_colors(&mut args, inf);
    put_tail(&mut args, abr, output);

    let info = describe(inf, bitrate, capped, crop, enc, Ghost(c));

    let streams = &p.streams;
    let tgt_res = match crop {
        Some(b) => concat3(print_i64(inf.w).as_str(), "x", print_i64(b.0).as_str()),
        None => streams.v_res.clone(),
    };
    let target = StreamSummary {
        duration: streams.duration.dup(),
        dur_str: streams.dur_str.clone(),
        v_codec: enc.codec_name().to_string(),
        v_res: tgt_res,
        v_fps: streams.v_fps.clone(),
        v_bits: if ten {
            "10-bit".to_string()
        } else {
            "8-bit".to_string()
        },
        v_fmt: tgt_pf.to_string(),
        v_bitrate: concat2(print_i64(bitrate).as_str(), " kbps"),
        a_codec: "AAC".to_string(),
        a_layout: streams.a_layout.clone(),
        a_rate: streams.a_rate.clone(),
        a_bitrate: concat2(print_i64(abr).as_str(), " kbps"),
    };
    (args, info, target)
}

// ---------------------------------------------------------------- local jobs
/// A job ready to run.
pub struct BuiltJob {
    pub name: String,
    pub info: String,
    pub args: Vec<String>,
    /// What goes in.
    pub streams: StreamSummary,
    /// What comes out.
    pub target: StreamSummary,
}

/// The contents of a [`BuiltJob`].
#[verifier::ext_equal]
pub struct JobView {
    pub name: Seq<char>,
    pub info: Seq<char>,
    pub args: Seq<Seq<char>>,
    pub streams: SummaryView,
    pub target: SummaryView,
}

impl BuiltJob {
    pub open spec fn view(&self) -> JobView {
        JobView {
            name: self.name@,
            info: self.info@,
            args: texts(self.args@),
            streams: self.streams@,
            target: self.target@,
        }
    }
}

/// The folder that the output of a local file goes to.
pub open spec fn out_dir_of(pl: Platform, file: Seq<char>) -> Seq<char> {
    joined(
        pl,
        match parent_of(pl, file) {
            Some(d) => d,
            None => "."@,
        },
        "reencoded"@,
    )
}

/// The name a local file goes by: its own, without the extension.
pub open spec fn job_name_of(pl: Platform, file: Seq<char>) -> Seq<char> {
    match file_stem_of(pl, file) {
        Some(s) => s,
        None => "output"@,
    }
}

/// Where the output of a local file goes.
pub open spec fn out_path_of(pl: Platform, file: Seq<char>) -> Seq<char> {
    joined(pl, out_dir_of(pl, file), job_name_of(pl, file) + ".mp4"@)
}

/// The folder that the output of a local file goes to.
pub fn job_out_dir(pl: Platform, file: &str) -> (r: String)
    ensures
        r@ == out_dir_of(pl, file@),
{
    let dir = match parent(pl, file) {
        Some(d) => d,
        None => ".".to_string(),
    };
    join(pl, dir.as_str(), "reencoded")
}

/// The job for a local file.
pub open spec fn job_of(
    pl: Platform,
    file: Seq<char>,
    p: ProbeView,
    mode: CropMode,
    preset: Seq<char>,
    high: int,
    low: int,
    enc: VideoEncoder,
) -> JobView {
    JobView {
        name: job_name_of(pl, file),
        info: job_info(p, mode, high, low, enc),
        args: job_args(file, out_path_of(pl, file), p, mode, preset, high, low, enc),
        streams: p.streams,
        target: job_target(p, mode, high, low, enc),
    }
}

/// Builds the job for a local file, where it could be probed. Its output goes
/// to the `reencoded` folder next to it.
pub fn build_job(
    pl: Platform,
    file: &str,
    probe: Option<ProbeResult>,
    crop_mode: CropMode,
    preset: &str,
    high_kbps: i64,
    low_kbps: i64,
    enc: VideoEncoder,
) -> (r: Option<BuiltJob>)
    requires
        probe matches Some(p) ==> p.wf() && job_fits(p@, high_kbps as int, low_kbps as int),
    ensures
        match (probe, r) {
            (None, None) => true,
            (Some(p), Some(j)) => {
                &&& j.streams.wf()
                &&& j.target.wf()
                &&& j@ == job_of(
                    pl,
                    file@,
                    p@,
                    crop_mode,
                    preset@,
                    high_kbps as int,
                    low_kbps as int,
                    enc,
                )
            },
            _ => false,
        },
{
    let p = match probe {
        Some(p) => p,
        None => {
            return None;
        },
    };
    let name = match file_stem(pl, file) {
        Some(s) => s,
        None => "output".to_string(),
    };
    let dir = job_out_dir(pl, file);
    let out = join(pl, dir.as_str(), concat2(name.as_str(), ".mp4").as_str());
    let (args, info, target) = build_args(
        file,
        out.as_str(),
        &p,
        crop_mode,
        preset,
        high_kbps,
        low_kbps,
        enc,
    );
    Some(BuiltJob { name, info, args, streams: p.streams, target })
}

/// The name of the program that probes files.
pub open spec fn ffprobe_name(pl: Platform) -> Seq<char> {
    match pl {
        Platform::Windows => "ffprobe.exe"@,
        Platform::Unix => "ffprobe"@,
    }
}

/// Where ffprobe is: next to ffmpeg.
pub fn ffprobe_from_ffmpeg(pl: Platform, ffmpeg: &str) -> (r: String)
    ensures
        r@ == joined(
            pl,
            match parent_of(pl, ffmpeg@) {
                Some(d) => d,
                None => "."@,
            },
            ffprobe_name(pl),
        ),
{
    let dir = match parent(pl, ffmpeg) {
        Some(d) => d,
        None => ".".to_string(),
    };
    let name = match pl {
        Platform::Windows => "ffprobe.exe",
        Platform::Unix => "ffprobe",
    };
    join(pl, dir.as_str(), name)
}

// ---------------------------------------------------------------- laws
/// Whether ffmpeg lists an encoder for a codec that runs on the CPU.
pub open spec fn cpu_is_listed(codec: Codec, listed: Seq<char>) -> bool {
    match codec {
        Codec::H264 => contains_text(listed, "libx264"@),
        Codec::H265 => contains_text(listed, "libx265"@),
        Codec::Av1 => contains_text(listed, "libsvtav1"@) || contains_text(listed, "libaom-av1"@),
    }
}

/// The GPU encodes where it can, and the CPU takes over where it cannot and
/// there is an encoder for it. Either writes the codec that was chosen.
pub proof fn cpu_takes_over(codec: Codec, nvenc_works: bool, listed: Seq<char>, e: VideoEncoder)
    requires
        is_detected(codec, nvenc_works, listed, e),
    ensures
        e is Nvenc <==> nvenc_works || !cpu_is_listed(codec, listed),
        e.spec_codec_name() == match codec {
            Codec::H264 => "H264"@,
            Codec::H265 => "H265"@,
            Codec::Av1 => "AV1"@,
        },
{
    reveal_strlit("h264_nvenc");
    reveal_strlit("hevc_nvenc");
    reveal_strlit("av1_nvenc");
    reveal_strlit("libx264");
    reveal_strlit("libx265");
    assert("av1_nvenc"@[0] == 'a' && "h264_nvenc"@[1] == '2' && "hevc_nvenc"@[1] == 'e');
    assert("libx264"@[6] == '4' && "libx265"@[6] == '5');
}

/// The output of a file goes to the folder `reencoded` beside it, under its own
/// name, and is never the file itself. Left out are names on Windows that begin
/// with a drive of their own or hold a slash, and folders there that take no
/// names.
pub proof fn output_lands_beside_its_source(pl: Platform, file: Seq<char>)
    requires
        parent_of(pl, file) matches Some(d) ==> takes_names(pl, d),
        prefix_len(pl, job_name_of(pl, file) + ".mp4"@) == 0,
        is_verbatim(pl, file) ==> !job_name_of(pl, file).contains('/'),
    ensures
        file_name_of(pl, out_path_of(pl, file)) == Some(job_name_of(pl, file) + ".mp4"@),
        parent_of(pl, out_path_of(pl, file)) == Some(out_dir_of(pl, file)),
        file_name_of(pl, out_dir_of(pl, file)) == Some("reencoded"@),
        parent_of(pl, out_dir_of(pl, file)) == Some(
            match parent_of(pl, file) {
                Some(d) => home(pl, d),
                None => "."@,
            },
        ),
        out_path_of(pl, file) != file,
{
    reveal_strlit(".");
    reveal_strlit("reencoded");
    reveal_strlit("output");
    reveal_strlit(".mp4");
    let d = match parent_of(pl, file) {
        Some(d) => d,
        None => "."@,
    };
    parent_is_tidy(pl, file);
    assert(takes_names(pl, d));
    assert forall|i: int| 0 <= i < "reencoded"@.len() implies !is_sep(
        pl,
        #[trigger] "reencoded"@[i],
    ) by {}
    assert(seq!['.'].len() == 1 && seq!['.', '.'].len() == 2);
    joined_name_is_last(pl, d, "reencoded"@);
    home_is_kept(pl, d);
    let dir = out_dir_of(pl, file);
    let name = job_name_of(pl, file) + ".mp4"@;
    file_name_has_no_separator(pl, file);
    if let Some(n) = file_name_of(pl, file) {
        lemma_last_dot(n);
    }
    assert forall|i: int| 0 <= i < name.len() implies !is_sep(pl, #[trigger] name[i]) by {
        let stem = job_name_of(pl, file);
        if i < stem.len() {
            assert(name[i] == stem[i]);
            assert(stem.contains(stem[i]));
        } else {
            assert(name[i] == ".mp4"@[i - stem.len()]);
        }
    }
    assert(name.len() >= 4);
    assert(is_plain_name(pl, name));
    joined_name_is_last(pl, dir, name);
}

/// The output's bitrate is never above the one wanted, nor above the source's
/// where that is known.
pub proof fn bitrate_is_capped(p: ProbeView, high: int, low: int)
    ensures
        video_rate(p, high, low) <= target_rate(p.inf, high, low),
        p.src_kbps > 0 ==> video_rate(p, high, low) <= p.src_kbps,
        video_rate(p, high, low) == p.src_kbps || video_rate(p, high, low) == target_rate(
            p.inf,
            high,
            low,
        ),
{
}

/// Turning a picture on its side changes nothing about its bitrate.
pub proof fn bitrate_ignores_orientation(p: ProbeView, q: ProbeView, high: int, low: int)
    requires
        q.inf.w == p.inf.h,
        q.inf.h == p.inf.w,
        q.src_kbps == p.src_kbps,
    ensures
        video_rate(p, high, low) == video_rate(q, high, low),
{
}

proof fn lemma_wide_height_is_not_negative(w: int)
    requires
        w >= 0,
    ensures
        wide_height(w) >= 0,
{
    lemma_rounded_shape(false, w, 1);
    if let Quantity::Finite { num: x, scale: s, .. } = float_of(w) {
        let p = pow10(s as nat);
        lemma_pow10_positive(s as nat);
        lemma_rounded_shape(false, x * 1440, p);
        if let Quantity::Finite { num: y, scale: t, .. } = product(float_of(w), 1440) {
            let q = pow10(t as nat);
            lemma_pow10_positive(t as nat);
            assert(pow10(0) == 1);
            lemma_rounded_shape(false, y * 1, 3440 * q);
            if let Quantity::Finite { num: z, scale: v, .. } = rounded(false, y * 1, 3440 * q) {
                lemma_pow10_positive(v as nat);
                lemma_nearest_is_not_negative(z, pow10(v as nat));
            }
        }
    }
}

proof fn lemma_nearest_is_not_negative(n: int, d: int)
    requires
        n >= 0,
        d > 0,
    ensures
        nearest(n, d) >= 0,
        2 * d * nearest(n, d) <= 2 * n + d < 2 * d * nearest(n, d) + 2 * d,
{
    vstd::arithmetic::div_mod::lemma_fundamental_div_mod(2 * n + d, 2 * d);
    vstd::arithmetic::div_mod::lemma_mod_bound(2 * n + d, 2 * d);
    vstd::arithmetic::div_mod::lemma_div_pos_is_pos(2 * n + d, 2 * d);
}

/// By how much a third may be off, for want of digits.
pub open spec fn slack(cut: int) -> int {
    cut / 0x4_0000_0000_0000
}

/// What two roundings after one another do to a third.
proof fn lemma_two_roundings(c: int, x: int, p: int, y: int, q: int)
    requires
        c > 0,
        p > 0,
        q > 0,
        x > 0,
        y > 0,
        -(c * p) <= (x - c * p) * 0x20_0000_0000_0000 <= c * p,
        -(x * q) <= (y * (3 * p) - x * q) * 0x20_0000_0000_0000 <= x * q,
    ensures
        c * q * 0x7_ffff_ffff_ffff <= 3 * y * 0x8_0000_0000_0000 <= c * q * 0x8_0000_0000_0001,
{
    let f = 0x20_0000_0000_0000int;
    let a = c * p;
    let b = x * q;
    let e = y * (3 * p);
    // Both roundings, without division.
    assert(x * f <= a * (f + 1) && x * f >= a * (f - 1)) by (nonlinear_arith)
        requires
            -a <= (x - a) * f <= a,
    ;
    assert(e * f <= b * (f + 1) && e * f >= b * (f - 1)) by (nonlinear_arith)
        requires
            -b <= (e - b) * f <= b,
    ;
    let g = a * q;
    assert(b * f <= g * (f + 1) && b * f >= g * (f - 1)) by (nonlinear_arith)
        requires
            x * f <= a * (f + 1),
            x * f >= a * (f - 1),
            b == x * q,
            g == a * q,
            q > 0,
    ;
    assert(e * f * f <= g * (f + 1) * (f + 1)) by (nonlinear_arith)
        requires
            e * f <= b * (f + 1),
            b * f <= g * (f + 1),
            f == 0x20_0000_0000_0000int,
    ;
    assert(e * f * f >= g * (f - 1) * (f - 1)) by (nonlinear_arith)
        requires
            e * f >= b * (f - 1),
            b * f >= g * (f - 1),
            f == 0x20_0000_0000_0000int,
    ;
    assert(g > 0) by (nonlinear_arith)
        requires
            g == a * q,
            a == c * p,
            c > 0,
            p > 0,
            q > 0,
    ;
    let t = 0x8_0000_0000_0000int;
    assert(f == 4 * t);
    assert((f + 1) * (f + 1) * t <= f * f * (t + 1)) by (nonlinear_arith)
        requires
            f == 4 * t,
            t == 0x8_0000_0000_0000int,
    ;
    assert((f - 1) * (f - 1) * t >= f * f * (t - 1)) by (nonlinear_arith)
        requires
            f == 4 * t,
            t == 0x8_0000_0000_0000int,
    ;
    let ff = f * f;
    lemma_scaled_bound(e, g, ff, (f + 1) * (f + 1), (f - 1) * (f - 1), t);
    // Now divided by `p`.
    let z = 3 * y;
    let cq = c * q;
    assert(e == p * z) by (nonlinear_arith)
        requires
            e == y * (3 * p),
            z == 3 * y,
    ;
    assert(g == p * cq) by (nonlinear_arith)
        requires
            g == a * q,
            a == c * p,
            cq == c * q,
    ;
    assert(z * t <= cq * (t + 1)) by (nonlinear_arith)
        requires
            e * t <= g * (t + 1),
            e == p * z,
            g == p * cq,
            p > 0,
    ;
    assert(z * t >= cq * (t - 1)) by (nonlinear_arith)
        requires
            e * t >= g * (t - 1),
            e == p * z,
            g == p * cq,
            p > 0,
    ;
}

proof fn lemma_scaled_bound(e: int, g: int, ff: int, up: int, down: int, t: int)
    requires
        g > 0,
        ff > 0,
        t > 0,
        e * ff <= g * up,
        e * ff >= g * down,
        up * t <= ff * (t + 1),
        down * t >= ff * (t - 1),
    ensures
        e * t <= g * (t + 1),
        e * t >= g * (t - 1),
{
    assert((e * t) * ff <= (g * (t + 1)) * ff) by (nonlinear_arith)
        requires
            e * ff <= g * up,
            up * t <= ff * (t + 1),
            g > 0,
            t > 0,
    ;
    assert((e * t) * ff >= (g * (t - 1)) * ff) by (nonlinear_arith)
        requires
            e * ff >= g * down,
            down * t >= ff * (t - 1),
            g > 0,
            t > 0,
    ;
    assert(e * t <= g * (t + 1)) by (nonlinear_arith)
        requires
            (e * t) * ff <= (g * (t + 1)) * ff,
            ff > 0,
    ;
    assert(e * t >= g * (t - 1)) by (nonlinear_arith)
        requires
            (e * t) * ff >= (g * (t - 1)) * ff,
            ff > 0,
    ;
}

proof fn lemma_third(c: int)
    requires
        0 < c <= i64::MAX,
    ensures
        0 <= third_of(c) <= c,
        c - 1 - slack(c) <= 3 * third_of(c) <= c + 1 + slack(c),
{
    lemma_pow2_sum(26, 27);
    lemma_pow2_sum(53, 11);
    assert(pow2(26) == 0x400_0000 && pow2(27) == 0x800_0000 && pow2(11) == 2048) by {
        reveal_with_fuel(pow2, 28);
    }
    assert(pow2(53) == 0x20_0000_0000_0000);
    assert(pow2(64) == 0x1_0000_0000_0000_0000);
    lemma_pow2_grows(64, 1000);
    let top = pow2(1000);
    assert(c * top >= 1) by (nonlinear_arith)
        requires
            c >= 1,
            top >= 1,
    ;
    rounding_is_precise(false, c, 1);
    if let Quantity::Finite { num: x, scale: s, .. } = float_of(c) {
        let p = pow10(s as nat);
        lemma_pow10_positive(s as nat);
        let a = c * p;
        assert((2 * c) * p == 2 * a) by (nonlinear_arith)
            requires
                a == c * p,
        ;
        assert(x * 1 == x);
        assert(a <= 2 * x && x <= 2 * a);
        let n = x * 1;
        let d = 3 * p;
        assert((2 * c) * p <= top * p) by (nonlinear_arith)
            requires
                2 * c <= top,
                p > 0,
        ;
        assert(n <= d * top) by (nonlinear_arith)
            requires
                n <= 2 * a,
                2 * a <= top * p,
                d == 3 * p,
                p > 0,
                top > 0,
        ;
        assert(d <= n * top) by (nonlinear_arith)
            requires
                a <= 2 * n,
                a == c * p,
                d == 3 * p,
                c >= 1,
                top >= 6,
                p > 0,
        ;
        assert(pow10(0) == 1);
        rounding_is_precise(false, n, d);
        if let Quantity::Finite { num: y, scale: t, .. } = rounded(false, n, d) {
            let q = pow10(t as nat);
            lemma_pow10_positive(t as nat);
            lemma_two_roundings(c, x, p, y, q);
            lemma_nearest_is_not_negative(y, q);
            lemma_nearest_third(c, y, q, nearest(y, q));
        }
    }
}

proof fn lemma_nearest_third(c: int, y: int, q: int, r: int)
    requires
        c > 0,
        q > 0,
        c * q * 0x7_ffff_ffff_ffff <= 3 * y * 0x8_0000_0000_0000 <= c * q * 0x8_0000_0000_0001,
        2 * q * r <= 2 * y + q < 2 * q * r + 2 * q,
        r >= 0,
    ensures
        r <= c,
        c - 1 - slack(c) <= 3 * r <= c + 1 + slack(c),
{
    let t = 0x8_0000_0000_0000int;
    assert(6 * r * t <= 2 * c * (t + 1) + 3 * t) by (nonlinear_arith)
        requires
            3 * y * t <= c * q * (t + 1),
            2 * q * r <= 2 * y + q,
            q > 0,
            t == 0x8_0000_0000_0000int,
    ;
    assert(6 * r * t > 2 * c * (t - 1) - 3 * t) by (nonlinear_arith)
        requires
            3 * y * t >= c * q * (t - 1),
            2 * y + q < 2 * q * r + 2 * q,
            q > 0,
            t == 0x8_0000_0000_0000int,
    ;
}

/// A crop keeps the picture inside the frame, and both its height and its
/// offset are even.
pub proof fn crop_is_inside(w: int, h: int, mode: CropMode)
    requires
        w >= 0,
        h <= i64::MAX,
    ensures
        crop_of(w, h, mode) matches Some(c) ==> {
            &&& 0 <= c.0 && c.0 < h
            &&& 0 <= c.1 && c.0 + c.1 <= h
            &&& c.0 % 2 == 0
            &&& c.1 % 2 == 0
        },
{
    lemma_wide_height_is_not_negative(w);
    if let Some(c) = crop_of(w, h, mode) {
        lemma_third(h - c.0);
    }
}

/// What has been cropped is not cropped again.
pub proof fn crop_happens_once(w: int, h: int, mode: CropMode, again: CropMode)
    ensures
        crop_of(w, h, mode) matches Some(c) ==> crop_of(w, c.0, again) is None,
{
}

/// A crop leaves as much at the bottom as at the top, up to the rounding to
/// even lines, or twice as much where one third is taken from the top. Beyond two
/// to the 50 lines a third is not exact, and may be off by a line more for each
/// two to the 50 lines.
pub proof fn crop_shares(w: int, h: int)
    requires
        w >= 0,
        h <= i64::MAX,
    ensures
        crop_of(w, h, CropMode::Centered) matches Some(c) ==> {
            let bottom = h - c.0 - c.1;
            c.1 <= bottom <= c.1 + 3
        },
        crop_of(w, h, CropMode::OneThird) matches Some(c) ==> {
            let bottom = h - c.0 - c.1;
            let off = slack(h - c.0);
            2 * c.1 - 1 - off <= bottom <= 2 * c.1 + 4 + off
        },
{
    lemma_wide_height_is_not_negative(w);
    let cut = h - wide_height(w);
    if cut > 0 {
        lemma_third(cut);
    }
}

/// NVENC presets run the other way round: a preset that is slower here is
/// slower on NVENC too.
pub proof fn nvenc_presets_are_reversed(m: int, n: int)
    requires
        1 <= m < n <= 7,
    ensures
        nvenc_preset_of(m) == "p"@ + dec_int(8 - m),
        nvenc_preset_of(n) == "p"@ + dec_int(8 - n),
        8 - m > 8 - n,
{
}

/// A 10-bit source stays 10-bit with every encoder but the one that cannot, and
/// an 8-bit source is never widened.
pub proof fn depth_is_kept(ten_bit: bool, enc: VideoEncoder)
    ensures
        ten_bit && !enc.is_h264_nvenc() ==> depth(ten_bit, enc) == "10-bit"@,
        !ten_bit || enc.is_h264_nvenc() ==> depth(ten_bit, enc) == "8-bit"@,
        (pixel_args(ten_bit, enc).len() > 0) == keeps_ten(ten_bit, enc),
{
}

/// The input follows `-i` and the output comes last, whatever the job.
pub proof fn input_and_output_have_their_places(
    input: Seq<char>,
    output: Seq<char>,
    p: ProbeView,
    mode: CropMode,
    preset: Seq<char>,
    high: int,
    low: int,
    enc: VideoEncoder,
)
    ensures
        ({
            let a = job_args(input, output, p, mode, preset, high, low, enc);
            a[4] == "-i"@ && a[5] == input && a.last() == output
        }),
{
}

/// The job for a local file is named after it, goes to its output path, and is
/// run with what there is for that path.
pub proof fn job_is_run_for_its_output(
    pl: Platform,
    file: Seq<char>,
    p: ProbeView,
    mode: CropMode,
    preset: Seq<char>,
    high: int,
    low: int,
    enc: VideoEncoder,
)
    ensures
        ({
            let j = job_of(pl, file, p, mode, preset, high, low, enc);
            &&& j.name == job_name_of(pl, file)
            &&& j.streams == p.streams
            &&& j.args.last() == out_path_of(pl, file)
            &&& (j.args, j.info, j.target) == args_of(
                file,
                out_path_of(pl, file),
                p,
                mode,
                preset,
                high,
                low,
                enc,
            )
        }),
{
}

/// Whether none of the texts that come from outside is the option for a filter.
pub open spec fn no_text_is_a_filter(
    input: Seq<char>,
    output: Seq<char>,
    inf: InfoView,
    enc: VideoEncoder,
) -> bool {
    &&& input != "-vf"@
    &&& output != "-vf"@
    &&& inf.hdr ==> inf.primaries != "-vf"@ && inf.trc != "-vf"@ && inf.space != "-vf"@ && inf.range
        != "-vf"@
    &&& match enc {
        VideoEncoder::Nvenc(n) => n@ != "-vf"@,
        VideoEncoder::X26x(n) => n@ != "-vf"@,
        _ => true,
    }
}

/// Whether the option for a filter is not among some arguments.
#[verifier::opaque]
pub open spec fn has_no_filter(v: Seq<Seq<char>>) -> bool {
    forall|i: int| 0 <= i < v.len() ==> #[trigger] v[i] != "-vf"@
}

proof fn lemma_no_filter_sum(a: Seq<Seq<char>>, b: Seq<Seq<char>>)
    requires
        has_no_filter(a),
        has_no_filter(b),
    ensures
        has_no_filter(a + b),
{
    reveal(has_no_filter);
    let all = a + b;
    assert forall|i: int| 0 <= i < all.len() implies #[trigger] all[i] != "-vf"@ by {
        if i < a.len() {
            assert(all[i] == a[i]);
        } else {
            assert(all[i] == b[i - a.len()]);
        }
    }
}

proof fn lemma_number_is_no_filter(n: int)
    ensures
        dec_int(n).len() > 0,
        is_digit(dec_int(n).last()),
        dec_int(n) != "-vf"@,
        kilo(n) != "-vf"@,
        "p"@ + dec_int(n) != "-vf"@,
{
    reveal_strlit("-vf");
    reveal_strlit("k");
    reveal_strlit("p");
    let m = if n < 0 {
        -n
    } else {
        n
    };
    dec_is_its_value(m);
    assert(dec(m).len() > 0);
    assert(is_digit(dec(m)[dec(m).len() - 1]));
    assert(dec_int(n).last() == dec(m).last());
    assert(kilo(n).last() == 'k');
    assert("-vf"@.last() == 'f');
    assert(("p"@ + dec_int(n))[0] == 'p');
    assert("-vf"@[0] == '-');
}

proof fn lemma_rate_args_have_no_filter(b: int)
    ensures
        has_no_filter(rate_args(b)),
{
    reveal_strlit("-vf");
    reveal_strlit("-b:v");
    reveal_strlit("-maxrate");
    reveal_strlit("-bufsize");
    reveal(has_no_filter);
    lemma_number_is_no_filter(b);
    lemma_number_is_no_filter(max_rate(b));
    lemma_number_is_no_filter(b * 2);
    assert("-vf"@.len() == 3 && "-b:v"@.len() == 4 && "-maxrate"@.len() == 8 && "-bufsize"@.len() == 8);
}

proof fn lemma_encoder_args_have_no_filter(enc: VideoEncoder, n: int, b: int)
    requires
        match enc {
            VideoEncoder::Nvenc(n) => n@ != "-vf"@,
            VideoEncoder::X26x(n) => n@ != "-vf"@,
            _ => true,
        },
    ensures
        has_no_filter(encoder_args(enc, n, b)),
{
    reveal_strlit("-vf");
    reveal_strlit("-c:v");
    reveal_strlit("-preset");
    reveal_strlit("-b:v");
    reveal(has_no_filter);
    lemma_rate_args_have_no_filter(b);
    lemma_number_is_no_filter(b);
    assert("-vf"@.len() == 3 && "-c:v"@.len() == 4 && "-preset"@.len() == 7 && "-b:v"@.len() == 4);
    match enc {
        VideoEncoder::Nvenc(name) => {
            reveal_strlit("-rc");
            reveal_strlit("vbr");
            assert("-rc"@[1] == 'r' && "vbr"@[0] == 'v' && "-vf"@[0] == '-' && "-vf"@[1] == 'v');
            lemma_number_is_no_filter(clamp(8 - n, 1, 7));
            let head = seq!["-c:v"@, name@, "-preset"@, nvenc_preset_of(n), "-rc"@, "vbr"@];
            assert(has_no_filter(head));
            lemma_no_filter_sum(head, rate_args(b));
        },
        VideoEncoder::X26x(name) => {
            reveal_strlit("veryslow");
            reveal_strlit("slower");
            reveal_strlit("slow");
            reveal_strlit("medium");
            reveal_strlit("fast");
            reveal_strlit("faster");
            reveal_strlit("veryfast");
            assert(x26x_preset_of(n).len() > 3);
            let head = seq!["-c:v"@, name@, "-preset"@, x26x_preset_of(n)];
            assert(has_no_filter(head));
            lemma_no_filter_sum(head, rate_args(b));
        },
        VideoEncoder::Svt => {
            reveal_strlit("libsvtav1");
            assert("libsvtav1"@.len() == 9);
            lemma_number_is_no_filter(clamp(n, 0, 13));
        },
        VideoEncoder::Aom => {
            reveal_strlit("libaom-av1");
            reveal_strlit("-row-mt");
            reveal_strlit("1");
            reveal_strlit("-cpu-used");
            assert("libaom-av1"@.len() == 10 && "-row-mt"@.len() == 7 && "1"@.len() == 1
                && "-cpu-used"@.len() == 9);
            lemma_number_is_no_filter(clamp(n - 1, 0, 8));
            let head = seq![
                "-c:v"@,
                "libaom-av1"@,
                "-row-mt"@,
                "1"@,
                "-cpu-used"@,
                dec_int(clamp(n - 1, 0, 8)),
            ];
            assert(has_no_filter(head));
            lemma_no_filter_sum(head, rate_args(b));
        },
    }
}

proof fn lemma_tail_has_no_filter(p: ProbeView, output: Seq<char>, enc: VideoEncoder)
    requires
        no_text_is_a_filter(output, output, p.inf, enc),
    ensures
        has_no_filter(pixel_args(p.inf.ten_bit, enc)),
        has_no_filter(color_args(p.inf)),
        has_no_filter(tail_args(audio_rate(p.channels), output)),
{
    reveal_strlit("-vf");
    reveal_strlit("-pix_fmt");
    reveal_strlit("p010le");
    reveal_strlit("yuv420p10le");
    reveal_strlit("-color_primaries");
    reveal_strlit("-color_trc");
    reveal_strlit("-colorspace");
    reveal_strlit("-color_range");
    reveal_strlit("-af");
    reveal_strlit("aformat=channel_layouts=7.1|5.1|stereo|mono");
    reveal_strlit("-c:a");
    reveal_strlit("aac");
    reveal_strlit("-b:a");
    reveal_strlit("-movflags");
    reveal_strlit("+faststart");
    reveal(has_no_filter);
    assert("-af"@[1] == 'a' && "aac"@[0] == 'a' && "-vf"@[0] == '-' && "-vf"@[1] == 'v');
    lemma_number_is_no_filter(audio_rate(p.channels));
}

proof fn lemma_head_has_no_filter(input: Seq<char>)
    requires
        input != "-vf"@,
    ensures
        has_no_filter(seq!["-hide_banner"@, "-y"@, "-hwaccel"@, "cuda"@, "-i"@, input]),
        has_no_filter(seq!["-map"@, "0:0"@, "-map"@, "0:1"@]),
        has_no_filter(seq![]),
{
    reveal_strlit("-vf");
    reveal_strlit("-hide_banner");
    reveal_strlit("-y");
    reveal_strlit("-hwaccel");
    reveal_strlit("cuda");
    reveal_strlit("-i");
    reveal_strlit("-map");
    reveal_strlit("0:0");
    reveal_strlit("0:1");
    reveal(has_no_filter);
    assert("-vf"@.len() == 3 && "-hide_banner"@.len() == 12 && "-y"@.len() == 2 && "-hwaccel"@.len()
        == 8 && "cuda"@.len() == 4 && "-i"@.len() == 2 && "-map"@.len() == 4);
    assert("0:0"@[0] == '0' && "0:1"@[0] == '0' && "-vf"@[0] == '-');
}

/// The crop filter and the size of the output follow the crop: where there is
/// one, its filter stands right behind the input and the output has its height;
/// where there is none, there is no filter and the size stays. The duration, the
/// frame rate and the sound's layout and rate stay in any case.
pub proof fn filter_follows_the_crop(
    input: Seq<char>,
    output: Seq<char>,
    p: ProbeView,
    mode: CropMode,
    preset: Seq<char>,
    high: int,
    low: int,
    enc: VideoEncoder,
)
    requires
        no_text_is_a_filter(input, output, p.inf, enc),
    ensures
        ({
            let (a, info, t) = args_of(input, output, p, mode, preset, high, low, enc);
            &&& match crop_of(p.inf.w, p.inf.h, mode) {
                Some(c) => {
                    &&& a[6] == "-vf"@
                    &&& a[7] == "crop="@ + crop_text(p.inf.w, c)
                    &&& a[8] == "-map"@
                    &&& t.v_res == dec_int(p.inf.w) + "x"@ + dec_int(c.0)
                },
                None => {
                    &&& !a.contains("-vf"@)
                    &&& t.v_res == p.streams.v_res
                },
            }
            &&& t.duration == p.streams.duration
            &&& t.dur_str == p.streams.dur_str
            &&& t.v_fps == p.streams.v_fps
            &&& t.a_layout == p.streams.a_layout
            &&& t.a_rate == p.streams.a_rate
        }),
{
    if crop_of(p.inf.w, p.inf.h, mode) is None {
        let head = seq!["-hide_banner"@, "-y"@, "-hwaccel"@, "cuda"@, "-i"@, input];
        let none: Seq<Seq<char>> = crop_args(p.inf.w, None);
        let maps = seq!["-map"@, "0:0"@, "-map"@, "0:1"@];
        lemma_head_has_no_filter(input);
        let coder = encoder_args(enc, preset_of(preset), video_rate(p, high, low));
        let pixels = pixel_args(p.inf.ten_bit, enc);
        let colors = color_args(p.inf);
        let tail = tail_args(audio_rate(p.channels), output);
        lemma_encoder_args_have_no_filter(enc, preset_of(preset), video_rate(p, high, low));
        lemma_tail_has_no_filter(p, output, enc);
        lemma_no_filter_sum(head, none);
        lemma_no_filter_sum(head + none, maps);
        lemma_no_filter_sum(head + none + maps, coder);
        lemma_no_filter_sum(head + none + maps + coder, pixels);
        lemma_no_filter_sum(head + none + maps + coder + pixels, colors);
        lemma_no_filter_sum(head + none + maps + coder + pixels + colors, tail);
        reveal(has_no_filter);
    }
}

/// The longest side of a picture.
pub open spec fn longest_side(inf: InfoView) -> int {
    if inf.w > inf.h {
        inf.w
    } else {
        inf.h
    }
}

/// A picture whose longest side has 3000 pixels or more gets the high rate, any
/// other the low one, and a source that is known to have less keeps what it has.
pub proof fn rate_follows_the_longest_side(p: ProbeView, high: int, low: int)
    ensures
        longest_side(p.inf) >= p.inf.w && longest_side(p.inf) >= p.inf.h,
        longest_side(p.inf) == p.inf.w || longest_side(p.inf) == p.inf.h,
        longest_side(p.inf) >= 3000 && (p.src_kbps <= 0 || p.src_kbps >= high) ==> video_rate(
            p,
            high,
            low,
        ) == high,
        longest_side(p.inf) < 3000 && (p.src_kbps <= 0 || p.src_kbps >= low) ==> video_rate(
            p,
            high,
            low,
        ) == low,
        longest_side(p.inf) >= 3000 && 0 < p.src_kbps < high ==> video_rate(p, high, low)
            == p.src_kbps,
        longest_side(p.inf) < 3000 && 0 < p.src_kbps < low ==> video_rate(p, high, low)
            == p.src_kbps,
        longest_side(p.inf) >= 3000 ==> target_rate(p.inf, high, low) == high,
        longest_side(p.inf) < 3000 ==> target_rate(p.inf, high, low) == low,
{
}

/// The sound gets 64 kbps for each channel, but never less than 192.
pub proof fn sound_rate_grows_with_the_channels(channels: int)
    ensures
        channels >= 3 ==> audio_rate(channels) == 64 * channels,
        channels <= 3 ==> audio_rate(channels) == 192,
        audio_rate(channels) >= 192,
{
}

/// Whether an option has a value among some arguments.
pub open spec fn sets(a: Seq<Seq<char>>, key: Seq<char>, value: Seq<char>) -> bool {
    exists|i: int| #[trigger] sets_at(a, key, value, i)
}

/// Whether an option has a value at position `i`.
pub open spec fn sets_at(a: Seq<Seq<char>>, key: Seq<char>, value: Seq<char>, i: int) -> bool {
    0 <= i && i + 1 < a.len() && a[i] == key && a[i + 1] == value
}

/// The name of an encoder.
pub open spec fn encoder_name(enc: VideoEncoder) -> Seq<char> {
    match enc {
        VideoEncoder::Nvenc(n) => n@,
        VideoEncoder::X26x(n) => n@,
        VideoEncoder::Svt => "libsvtav1"@,
        VideoEncoder::Aom => "libaom-av1"@,
    }
}

/// What every command holds, whatever is encoded: where it reads, which streams it
/// takes, the encoder, its rate, the sound and where it writes.
pub proof fn command_holds_what_every_job_needs(
    input: Seq<char>,
    output: Seq<char>,
    p: ProbeView,
    mode: CropMode,
    preset: Seq<char>,
    high: int,
    low: int,
    enc: VideoEncoder,
)
    ensures
        ({
            let a = job_args(input, output, p, mode, preset, high, low, enc);
            let b = video_rate(p, high, low);
            &&& a[0] == "-hide_banner"@
            &&& a[1] == "-y"@
            &&& sets_at(a, "-hwaccel"@, "cuda"@, 2)
            &&& sets_at(a, "-i"@, input, 4)
            &&& sets(a, "-map"@, "0:0"@)
            &&& sets(a, "-map"@, "0:1"@)
            &&& sets(a, "-c:v"@, encoder_name(enc))
            &&& sets(a, "-b:v"@, dec_int(b) + "k"@)
            &&& !(enc is Svt) ==> sets(a, "-maxrate"@, dec_int(max_rate(b)) + "k"@) && sets(
                a,
                "-bufsize"@,
                dec_int(2 * b) + "k"@,
            )
            &&& enc is Nvenc ==> sets(a, "-rc"@, "vbr"@)
            &&& enc is Aom ==> sets(a, "-row-mt"@, "1"@)
            &&& sets_at(a, "-af"@, "aformat=channel_layouts=7.1|5.1|stereo|mono"@, a.len() - 9)
            &&& sets_at(a, "-c:a"@, "aac"@, a.len() - 7)
            &&& p.channels >= 3 ==> sets_at(
                a,
                "-b:a"@,
                dec_int(64 * p.channels) + "k"@,
                a.len() - 5,
            )
            &&& p.channels <= 3 ==> sets_at(a, "-b:a"@, dec_int(192) + "k"@, a.len() - 5)
            &&& sets_at(a, "-movflags"@, "+faststart"@, a.len() - 3)
            &&& a.last() == output
        }),
{
    let a = job_args(input, output, p, mode, preset, high, low, enc);
    let c = crop_args(p.inf.w, crop_of(p.inf.w, p.inf.h, mode)).len() as int;
    let b = video_rate(p, high, low);
    assert(sets_at(a, "-map"@, "0:0"@, 6 + c));
    assert(sets_at(a, "-map"@, "0:1"@, 8 + c));
    assert(sets_at(a, "-c:v"@, encoder_name(enc), 10 + c));
    let r = match enc {
        VideoEncoder::Nvenc(_) => 16 + c,
        VideoEncoder::X26x(_) => 14 + c,
        VideoEncoder::Svt => 14 + c,
        VideoEncoder::Aom => 16 + c,
    };
    assert(sets_at(a, "-b:v"@, dec_int(b) + "k"@, r));
    if !(enc is Svt) {
        assert(sets_at(a, "-maxrate"@, dec_int(max_rate(b)) + "k"@, r + 2));
        assert(b * 2 == 2 * b);
        assert(sets_at(a, "-bufsize"@, dec_int(2 * b) + "k"@, r + 4));
    }
    if enc is Nvenc {
        assert(sets_at(a, "-rc"@, "vbr"@, 14 + c));
    }
    if enc is Aom {
        assert(sets_at(a, "-row-mt"@, "1"@, 12 + c));
    }
}

/// A 10-bit source is encoded in 10 bits: the format is `p010le` on the GPU and
/// `yuv420p10le` on the CPU, and it is what the summary shows. Only h264_nvenc writes
/// 8 bits of it, and then, as with an 8-bit source, no format is forced.
pub proof fn ten_bits_are_encoded_in_ten(
    input: Seq<char>,
    output: Seq<char>,
    p: ProbeView,
    mode: CropMode,
    preset: Seq<char>,
    high: int,
    low: int,
    enc: VideoEncoder,
)
    ensures
        ({
            let (a, info, t) = args_of(input, output, p, mode, preset, high, low, enc);
            let h264_gpu = enc matches VideoEncoder::Nvenc(n) && n@ == "h264_nvenc"@;
            &&& p.inf.ten_bit && enc is Nvenc && !h264_gpu ==> sets(a, "-pix_fmt"@, "p010le"@)
                && t.v_fmt == "p010le"@ && t.v_bits == "10-bit"@
            &&& p.inf.ten_bit && !(enc is Nvenc) ==> sets(a, "-pix_fmt"@, "yuv420p10le"@)
                && t.v_fmt == "yuv420p10le"@ && t.v_bits == "10-bit"@
            &&& (!p.inf.ten_bit || h264_gpu) && enc is Nvenc ==> t.v_fmt == "nv12"@ && t.v_bits
                == "8-bit"@
            &&& !p.inf.ten_bit && !(enc is Nvenc) ==> t.v_fmt == "yuv420p"@ && t.v_bits
                == "8-bit"@
        }),
{
    let a = job_args(input, output, p, mode, preset, high, low, enc);
    let c = crop_args(p.inf.w, crop_of(p.inf.w, p.inf.h, mode)).len() as int;
    let e = encoder_args(enc, preset_of(preset), video_rate(p, high, low)).len() as int;
    if keeps_ten(p.inf.ten_bit, enc) {
        assert(sets_at(a, "-pix_fmt"@, pixel_format(p.inf.ten_bit, enc), 10 + c + e));
    }
}

/// HDR colours are told to the encoder as they were found, and nothing is said of
/// colours without HDR.
pub proof fn hdr_colours_are_carried_over(
    input: Seq<char>,
    output: Seq<char>,
    p: ProbeView,
    mode: CropMode,
    preset: Seq<char>,
    high: int,
    low: int,
    enc: VideoEncoder,
)
    ensures
        p.inf.hdr ==> ({
            let a = job_args(input, output, p, mode, preset, high, low, enc);
            &&& sets(a, "-color_primaries"@, p.inf.primaries)
            &&& sets(a, "-color_trc"@, p.inf.trc)
            &&& sets(a, "-colorspace"@, p.inf.space)
            &&& sets(a, "-color_range"@, p.inf.range)
        }),
{
    if p.inf.hdr {
        let a = job_args(input, output, p, mode, preset, high, low, enc);
        let n = a.len();
        assert(sets_at(a, "-color_primaries"@, p.inf.primaries, n - 17));
        assert(sets_at(a, "-color_trc"@, p.inf.trc, n - 15));
        assert(sets_at(a, "-colorspace"@, p.inf.space, n - 13));
        assert(sets_at(a, "-color_range"@, p.inf.range, n - 11));
    }
}

/// A command holds nothing beyond what its job needs: its length is that of its
/// parts.
pub proof fn command_holds_nothing_else(
    input: Seq<char>,
    output: Seq<char>,
    p: ProbeView,
    mode: CropMode,
    preset: Seq<char>,
    high: int,
    low: int,
    enc: VideoEncoder,
)
    ensures
        job_args(input, output, p, mode, preset, high, low, enc).len() == 19 + (if crop_of(
            p.inf.w,
            p.inf.h,
            mode,
        ) is Some {
            2int
        } else {
            0
        }) + (match enc {
            VideoEncoder::Nvenc(_) => 12int,
            VideoEncoder::X26x(_) => 10,
            VideoEncoder::Svt => 6,
            VideoEncoder::Aom => 12,
        }) + (if p.inf.ten_bit && !(enc matches VideoEncoder::Nvenc(n) && n@ == "h264_nvenc"@) {
            2int
        } else {
            0
        }) + (if p.inf.hdr {
            8int
        } else {
            0
        }),
{
}

/// The preset that is told to each encoder: NVENC counts the other way round from
/// p1 to p7, x264 and x265 have names, and the two AV1 encoders on the CPU take
/// numbers, one of them from zero.
pub proof fn preset_is_told_to_the_encoder(
    input: Seq<char>,
    output: Seq<char>,
    p: ProbeView,
    mode: CropMode,
    preset: Seq<char>,
    high: int,
    low: int,
    enc: VideoEncoder,
)
    ensures
        ({
            let a = job_args(input, output, p, mode, preset, high, low, enc);
            let n = preset_of(preset);
            match enc {
                VideoEncoder::Nvenc(_) => {
                    &&& 1 <= n <= 7 ==> sets(a, "-preset"@, "p"@ + dec_int(8 - n))
                    &&& n < 1 ==> sets(a, "-preset"@, "p"@ + dec_int(7))
                    &&& n > 7 ==> sets(a, "-preset"@, "p"@ + dec_int(1))
                },
                VideoEncoder::X26x(_) => {
                    &&& n == 1 ==> sets(a, "-preset"@, "veryslow"@)
                    &&& n == 2 ==> sets(a, "-preset"@, "slower"@)
                    &&& n == 3 ==> sets(a, "-preset"@, "slow"@)
                    &&& n == 4 ==> sets(a, "-preset"@, "medium"@)
                    &&& n == 5 ==> sets(a, "-preset"@, "fast"@)
                    &&& n == 6 ==> sets(a, "-preset"@, "faster"@)
                    &&& n < 1 || n > 6 ==> sets(a, "-preset"@, "veryfast"@)
                },
                VideoEncoder::Svt => {
                    &&& 0 <= n <= 13 ==> sets(a, "-preset"@, dec_int(n))
                    &&& n < 0 ==> sets(a, "-preset"@, dec_int(0))
                    &&& n > 13 ==> sets(a, "-preset"@, dec_int(13))
                },
                VideoEncoder::Aom => {
                    &&& 1 <= n <= 9 ==> sets(a, "-cpu-used"@, dec_int(n - 1))
                    &&& n < 1 ==> sets(a, "-cpu-used"@, dec_int(0))
                    &&& n > 9 ==> sets(a, "-cpu-used"@, dec_int(8))
                },
            }
        }),
{
    let a = job_args(input, output, p, mode, preset, high, low, enc);
    let c = crop_args(p.inf.w, crop_of(p.inf.w, p.inf.h, mode)).len() as int;
    let n = preset_of(preset);
    match enc {
        VideoEncoder::Nvenc(_) => {
            assert(sets_at(a, "-preset"@, nvenc_preset_of(n), 12 + c));
        },
        VideoEncoder::X26x(_) => {
            assert(sets_at(a, "-preset"@, x26x_preset_of(n), 12 + c));
        },
        VideoEncoder::Svt => {
            assert(sets_at(a, "-preset"@, dec_int(clamp(n, 0, 13)), 12 + c));
        },
        VideoEncoder::Aom => {
            assert(sets_at(a, "-cpu-used"@, dec_int(clamp(n - 1, 0, 8)), 14 + c));
        },
    }
}

/// A preset is the letter p and its number, in either case, or the number alone;
/// what is no number counts as the seventh.
pub proof fn preset_is_its_number(n: int)
    requires
        0 <= n <= i64::MAX,
    ensures
        preset_of(seq!['p'] + dec_int(n)) == n,
        preset_of(seq!['P'] + dec_int(n)) == n,
        preset_of(dec_int(n)) == n,
        preset_of(""@) == 7,
        preset_of("fast"@) == 7,
{
    reveal_strlit("");
    reveal_strlit("fast");
    only_what_fits_is_read(n);
    dec_is_its_value(n);
    let d = dec_int(n);
    assert(is_digit(d[0]));
    assert((seq!['p'] + d).drop_first() =~= d);
    assert((seq!['P'] + d).drop_first() =~= d);
    reveal_with_fuel(trim_start_of, 2);
    only_digits_are_read("fast"@, 0);
}

/// Each encoder has the name that ffmpeg knows it by: that of the GPU where it works
/// or nothing else is listed, libx264 for H.264, libx265 for H.265, and for AV1
/// libsvtav1 before libaom-av1.
pub proof fn encoders_are_found_by_their_names(
    codec: Codec,
    nvenc_works: bool,
    listed: Seq<char>,
    e: VideoEncoder,
)
    requires
        is_detected(codec, nvenc_works, listed, e),
    ensures
        nvenc_works && codec == Codec::H264 ==> encoder_name(e) == "h264_nvenc"@ && e is Nvenc,
        nvenc_works && codec == Codec::H265 ==> encoder_name(e) == "hevc_nvenc"@ && e is Nvenc,
        nvenc_works && codec == Codec::Av1 ==> encoder_name(e) == "av1_nvenc"@ && e is Nvenc,
        !nvenc_works && codec == Codec::H264 && contains_text(listed, "libx264"@) ==> encoder_name(
            e,
        ) == "libx264"@ && e is X26x,
        !nvenc_works && codec == Codec::H265 && contains_text(listed, "libx265"@) ==> encoder_name(
            e,
        ) == "libx265"@ && e is X26x,
        !nvenc_works && codec == Codec::Av1 && contains_text(listed, "libsvtav1"@) ==> e is Svt,
        !nvenc_works && codec == Codec::Av1 && !contains_text(listed, "libsvtav1"@)
            && contains_text(listed, "libaom-av1"@) ==> e is Aom,
        !nvenc_works && codec == Codec::H264 && !contains_text(listed, "libx264"@) ==> encoder_name(
            e,
        ) == "h264_nvenc"@,
        !nvenc_works && codec == Codec::H265 && !contains_text(listed, "libx265"@) ==> encoder_name(
            e,
        ) == "hevc_nvenc"@,
        !nvenc_works && codec == Codec::Av1 && !contains_text(listed, "libsvtav1"@)
            && !contains_text(listed, "libaom-av1"@) ==> encoder_name(e) == "av1_nvenc"@,
        e.spec_label() == encoder_name(e) + (if e is Nvenc {
            " (GPU)"@
        } else {
            " (CPU)"@
        }),
{
    reveal_strlit("libsvtav1 (CPU)");
    reveal_strlit("libaom-av1 (CPU)");
    reveal_strlit("libsvtav1");
    reveal_strlit("libaom-av1");
    reveal_strlit(" (CPU)");
    assert("libsvtav1 (CPU)"@ =~= "libsvtav1"@ + " (CPU)"@);
    assert("libaom-av1 (CPU)"@ =~= "libaom-av1"@ + " (CPU)"@);
}

/// The names of the codecs.
pub proof fn codecs_have_their_names(c: Codec)
    ensures
        c.spec_label() == "H264"@ <==> c == Codec::H264,
        c.spec_label() == "H265"@ <==> c == Codec::H265,
        c.spec_label() == "AV1"@ <==> c == Codec::Av1,
{
    reveal_strlit("H264");
    reveal_strlit("H265");
    reveal_strlit("AV1");
    assert("H264"@.len() == 4 && "H265"@.len() == 4 && "AV1"@.len() == 3);
    assert("H264"@[3] == '4' && "H265"@[3] == '5');
}

/// The test of a GPU encoder encodes one frame that ffmpeg makes itself with that
/// encoder, and writes it nowhere.
pub proof fn gpu_is_tested_with_one_frame(encoder: Seq<char>)
    ensures
        ({
            let a = nvenc_test_of(encoder);
            &&& sets(a, "-c:v"@, encoder)
            &&& sets(a, "-frames:v"@, "1"@)
            &&& sets(a, "-i"@, "color=c=black:s=256x256:r=30"@)
            &&& sets_at(a, "-f"@, "lavfi"@, 3)
            &&& sets_at(a, "-f"@, "null"@, a.len() - 3)
            &&& sets(a, "-loglevel"@, "error"@)
            &&& a[0] == "-hide_banner"@
            &&& a.last() == "-"@
            &&& a.len() == 14
        }),
{
    let a = nvenc_test_of(encoder);
    assert(sets_at(a, "-loglevel"@, "error"@, 1));
    assert(sets_at(a, "-i"@, "color=c=black:s=256x256:r=30"@, 5));
    assert(sets_at(a, "-frames:v"@, "1"@, 7));
    assert(sets_at(a, "-c:v"@, encoder, 9));
}

/// The line that describes a job names its size, its rate, its encoder, and what is
/// out of the ordinary; the summary of the output says the same.
pub proof fn job_is_described(p: ProbeView, mode: CropMode, high: int, low: int, enc: VideoEncoder)
    ensures
        ({
            let i = job_info(p, mode, high, low, enc);
            let t = job_target(p, mode, high, low, enc);
            let b = video_rate(p, high, low);
            let size = dec_int(p.inf.w) + "x"@ + dec_int(p.inf.h);
            let h264_gpu = enc matches VideoEncoder::Nvenc(n) && n@ == "h264_nvenc"@;
            &&& i == size + " -> "@ + (dec_int(b) + "k"@) + (if 0 < p.src_kbps && b == p.src_kbps
                && b != target_rate(p.inf, high, low) {
                " (orig)"@
            } else {
                ""@
            }) + " · "@ + enc.spec_label() + (if !p.inf.ten_bit {
                ""@
            } else if h264_gpu {
                " 8-bit(!)"@
            } else {
                " 10-bit"@
            }) + (match crop_of(p.inf.w, p.inf.h, mode) {
                Some(c) => " crop["@ + (dec_int(p.inf.w) + ":"@ + dec_int(c.0) + ":0:"@ + dec_int(
                    c.1,
                )) + "]"@,
                None => ""@,
            }) + (if p.inf.hdr {
                " HDR"@
            } else {
                ""@
            })
            &&& t.v_bitrate == dec_int(b) + " kbps"@
            &&& t.a_codec == "AAC"@
            &&& p.channels >= 3 ==> t.a_bitrate == dec_int(64 * p.channels) + " kbps"@
            &&& p.channels <= 3 ==> t.a_bitrate == dec_int(192) + " kbps"@
            &&& t.v_codec == enc.spec_codec_name()
        }),
{
}

/// The crop filter keeps the whole width and cuts from the top, in the order that
/// ffmpeg takes: width, height, and the two offsets.
pub proof fn crop_is_written_for_ffmpeg(
    input: Seq<char>,
    output: Seq<char>,
    p: ProbeView,
    mode: CropMode,
    preset: Seq<char>,
    high: int,
    low: int,
    enc: VideoEncoder,
)
    ensures
        crop_of(p.inf.w, p.inf.h, mode) matches Some(c) ==> sets_at(
            job_args(input, output, p, mode, preset, high, low, enc),
            "-vf"@,
            "crop="@ + (dec_int(p.inf.w) + ":"@ + dec_int(c.0) + ":0:"@ + dec_int(c.1)),
            6,
        ),
{
}

proof fn lemma_float_is_exact(n: int)
    requires
        0 < n < 0x20_0000_0000_0000,
    ensures
        match float_of(n) {
            Quantity::Finite { neg, num, scale } => !neg && scale >= 0 && num == n * pow10(
                scale as nat,
            ),
            _ => false,
        },
{
    lemma_powers();
    representable_values_are_kept(false, n, 1, n, 0);
}

/// The highest rate is half as much again as the rate, rounded up: three times the
/// rate are two times the highest one.
pub proof fn highest_rate_is_half_as_much_again(b: int)
    requires
        0 <= b < 0x8_0000_0000_0000,
    ensures
        3 * b <= 2 * max_rate(b) <= 3 * b + 1,
{
    lemma_powers();
    if b == 0 {
        reveal(rounded);
        lemma_zero_is_rounded(1);
        lemma_zero_is_rounded(2);
    } else {
        lemma_float_is_exact(b);
        if let Quantity::Finite { num: x, scale: s, .. } = float_of(b) {
            let p = pow10(s as nat);
            lemma_pow10_positive(s as nat);
            let (n, d, m) = (x * 3, 2 * p, 3 * b);
            assert(n * pow2(1) == m * d) by (nonlinear_arith)
                requires
                    n == x * 3,
                    x == b * p,
                    d == 2 * p,
                    m == 3 * b,
                    pow2(1) == 2,
            ;
            assert(n >= 0) by (nonlinear_arith)
                requires
                    n == x * 3,
                    x == b * p,
                    b > 0,
                    p > 0,
            ;
            representable_values_are_kept(false, n, d, m, 1);
            if let Quantity::Finite { num: y, scale: t, .. } = rounded(false, n, d) {
                let q = pow10(t as nat);
                lemma_pow10_positive(t as nat);
                assert(2 * y == 3 * b * q) by (nonlinear_arith)
                    requires
                        y * d == n * q,
                        d == 2 * p,
                        n == x * 3,
                        x == b * p,
                        p > 0,
                ;
                assert(y >= 0) by (nonlinear_arith)
                    requires
                        2 * y == 3 * b * q,
                        b > 0,
                        q > 0,
                ;
                lemma_nearest_is_not_negative(y, q);
                let r = nearest(y, q);
                assert(3 * b <= 2 * r <= 3 * b + 1) by (nonlinear_arith)
                    requires
                        2 * y == 3 * b * q,
                        2 * q * r <= 2 * y + q < 2 * q * r + 2 * q,
                        q > 0,
                ;
            }
        }
    }
}

/// A crop makes a picture of 3440 to 1440, up to the rounding to even lines.
pub proof fn crop_makes_a_wide_picture(w: int, h: int, mode: CropMode)
    requires
        0 < w < 0x100_0000_0000,
    ensures
        1440 * w - 5160 <= 3440 * wide_height(w) <= 1440 * w + 1720,
        wide_height(w) % 2 == 0,
        crop_of(w, h, mode) matches Some(c) ==> c.0 == wide_height(w),
        crop_of(w, h, mode) is Some <==> mode != CropMode::NoCrop && wide_height(w) < h,
{
    lemma_powers();
    lemma_float_is_exact(w);
    if let Quantity::Finite { num: x, scale: s, .. } = float_of(w) {
        let p = pow10(s as nat);
        lemma_pow10_positive(s as nat);
        let (n, m) = (x * 1440, 1440 * w);
        assert(n == m * p) by (nonlinear_arith)
            requires
                n == x * 1440,
                x == w * p,
                m == 1440 * w,
        ;
        assert(n >= 0) by (nonlinear_arith)
            requires
                n == m * p,
                m > 0,
                p > 0,
        ;
        assert(n * 1 == m * p);
        representable_values_are_kept(false, n, p, m, 0);
        if let Quantity::Finite { num: y, scale: t, .. } = rounded(false, n, p) {
            let q = pow10(t as nat);
            lemma_pow10_positive(t as nat);
            assert(y == m * q) by (nonlinear_arith)
                requires
                    y * p == n * q,
                    n == m * p,
                    p > 0,
            ;
            let top = pow2(1000);
            let (k, d) = (y * 1, 3440 * q);
            assert(0 < k) by (nonlinear_arith)
                requires
                    k == m * q,
                    m > 0,
                    q > 0,
            ;
            assert(k <= d * top) by (nonlinear_arith)
                requires
                    k == m * q,
                    d == 3440 * q,
                    m <= top,
                    q > 0,
                    top > 0,
            ;
            assert(d <= k * top) by (nonlinear_arith)
                requires
                    k == m * q,
                    d == 3440 * q,
                    m > 0,
                    top >= 3440,
                    q > 0,
            ;
            rounding_is_precise(false, k, d);
            if let Quantity::Finite { num: z, scale: v, .. } = rounded(false, k, d) {
                let o = pow10(v as nat);
                lemma_pow10_positive(v as nat);
                lemma_nearest_is_not_negative(z, o);
                lemma_wide_bound(m, q, z, o, nearest(z, o));
            }
        }
    }
}

proof fn lemma_wide_bound(m: int, q: int, z: int, o: int, r: int)
    requires
        0 < m < 0x8_0000_0000_0000,
        q > 0,
        o > 0,
        -((m * q) * o) <= (z * (3440 * q) - (m * q) * o) * 0x20_0000_0000_0000 <= (m * q) * o,
        2 * o * r <= 2 * z + o < 2 * o * r + 2 * o,
    ensures
        m - 1720 <= 3440 * r <= m + 1720,
{
    let f = 0x20_0000_0000_0000int;
    let e = z * 3440 - m * o;
    assert(z * (3440 * q) - (m * q) * o == q * e) by (nonlinear_arith)
        requires
            e == z * 3440 - m * o,
    ;
    assert((m * q) * o == q * (m * o)) by (nonlinear_arith);
    let a = m * o;
    assert(-a <= e * f <= a) by (nonlinear_arith)
        requires
            -(q * a) <= (q * e) * f <= q * a,
            q > 0,
    ;
    assert(-o < 4 * e < o) by (nonlinear_arith)
        requires
            -a <= e * f <= a,
            a == m * o,
            m < 0x8_0000_0000_0000,
            f == 0x20_0000_0000_0000int,
            o > 0,
    ;
    assert(3440 * r <= m + 1720) by (nonlinear_arith)
        requires
            2 * o * r <= 2 * z + o,
            e == z * 3440 - m * o,
            4 * e < o,
            o > 0,
    ;
    assert(3440 * r >= m - 1720) by (nonlinear_arith)
        requires
            2 * z + o < 2 * o * r + 2 * o,
            e == z * 3440 - m * o,
            -o < 4 * e,
            o > 0,
    ;
}

/// The summary of the output names the codec of the encoder and the size that the crop
/// leaves; what encoding does not change is as in the source.
pub proof fn output_is_summed_up(
    p: ProbeView,
    mode: CropMode,
    high: int,
    low: int,
    enc: VideoEncoder,
)
    ensures
        ({
            let t = job_target(p, mode, high, low, enc);
            let name = encoder_name(enc);
            &&& t.duration == p.streams.duration && t.dur_str == p.streams.dur_str
            &&& t.v_fps == p.streams.v_fps
            &&& t.a_layout == p.streams.a_layout && t.a_rate == p.streams.a_rate
            &&& crop_of(p.inf.w, p.inf.h, mode) matches Some(c) ==> t.v_res == dec_int(p.inf.w)
                + "x"@ + dec_int(c.0)
            &&& crop_of(p.inf.w, p.inf.h, mode) is None ==> t.v_res == p.streams.v_res
            &&& enc is Nvenc && name == "h264_nvenc"@ ==> t.v_codec == "H264"@
            &&& enc is Nvenc && name == "hevc_nvenc"@ ==> t.v_codec == "H265"@
            &&& enc is Nvenc && name == "av1_nvenc"@ ==> t.v_codec == "AV1"@
            &&& enc is X26x && name == "libx264"@ ==> t.v_codec == "H264"@
            &&& enc is X26x && name == "libx265"@ ==> t.v_codec == "H265"@
            &&& enc is Svt || enc is Aom ==> t.v_codec == "AV1"@
        }),
{
    reveal_strlit("h264_nvenc");
    reveal_strlit("hevc_nvenc");
    reveal_strlit("av1_nvenc");
    reveal_strlit("libx264");
    reveal_strlit("libx265");
    assert("h264_nvenc"@[1] == '2' && "hevc_nvenc"@[1] == 'e' && "av1_nvenc"@[1] == 'v');
    assert("libx264"@[6] == '4' && "libx265"@[6] == '5');
}

/// The program that probes files has the name that its platform gives it.
pub proof fn probe_program_has_its_name(pl: Platform)
    ensures
        ffprobe_name(pl) == "ffprobe"@ <==> pl == Platform::Unix,
        ffprobe_name(pl) == "ffprobe.exe"@ <==> pl == Platform::Windows,
{
    reveal_strlit("ffprobe");
    reveal_strlit("ffprobe.exe");
    assert("ffprobe"@.len() == 7 && "ffprobe.exe"@.len() == 11);
}

} // verus!
