//! The daemon: who may talk to it, which jobs it has, and what each job does.
//!
//! Sockets, files and processes are the caller's part. What the caller learns is
//! told to a [`Daemon`], which says what to do about it.
use vstd::prelude::*;
use vstd::string::*;
use crate::collections::{TextMap, TextSet};
use crate::encoder::{
    build_args, can_build, job_args, job_fits, job_info, job_target, Codec, CropMode, ProbeResult,
    ProbeView, StreamSummary, VideoEncoder,
};
use crate::number::{
    dec, dec_int, dec_is_its_value, is_digit, only_what_fits_is_read, parse_u64, print_i64, print_u64,
    printing_is_injective, u64_of,
};
use crate::path::{
    file_name, file_name_has_no_separator, file_name_of, file_stem, file_stem_of, home,
    is_plain_name, is_sep, join, joined, joined_name_is_last, lemma_last_dot, parent_of,
    prefix_len, stem_of, takes_names, Platform,
};
use crate::proto::{block_in, parse_block, C2D, D2C, TAG_BLOCK, TAG_CTRL};
use crate::text::{
    ascii_upper, chars_are, chars_of, concat2, concat3, holds_text, lemma_texts_push, string_of,
    text_eq, text_in, texts, to_upper, trim, trim_chars,
};

verus! {

// ---------------------------------------------------------------- settings of a job
/// The bitrates of the four settings: for 4K pictures and for the rest, in kbps.
pub open spec fn rates_of(idx: int) -> (int, int) {
    if idx <= 0 {
        (10000, 8000)
    } else if idx == 1 {
        (8000, 6000)
    } else if idx == 2 {
        (6000, 4000)
    } else {
        (4000, 2000)
    }
}

/// The bitrates of a setting. Settings beyond the last count as the last.
pub fn rates(idx: usize) -> (r: (i64, i64))
    ensures
        (r.0 as int, r.1 as int) == rates_of(idx as int),
{
    if idx == 0 {
        (10000, 8000)
    } else if idx == 1 {
        (8000, 6000)
    } else if idx == 2 {
        (6000, 4000)
    } else {
        (4000, 2000)
    }
}

/// The crop a number stands for.
pub fn crop_from(c: u8) -> (r: CropMode)
    ensures
        r == match c {
            1 => CropMode::Centered,
            2 => CropMode::OneThird,
            _ => CropMode::NoCrop,
        },
{
    match c {
        1 => CropMode::Centered,
        2 => CropMode::OneThird,
        _ => CropMode::NoCrop,
    }
}

/// The number that stands for a crop.
pub fn crop_number(c: CropMode) -> (r: u8)
    ensures
        r == match c {
            CropMode::Centered => 1u8,
            CropMode::OneThird => 2u8,
            CropMode::NoCrop => 3u8,
        },
{
    match c {
        CropMode::Centered => 1,
        CropMode::OneThird => 2,
        CropMode::NoCrop => 3,
    }
}

/// The codec a name stands for, in whatever case; AV1 for other names.
pub open spec fn codec_named(s: Seq<char>) -> Codec {
    let u = ascii_upper(s);
    if u == "H264"@ {
        Codec::H264
    } else if u == "H265"@ || u == "HEVC"@ {
        Codec::H265
    } else {
        Codec::Av1
    }
}

/// The codec a name stands for.
pub fn codec_from(s: &str) -> (r: Codec)
    ensures
        r == codec_named(s@),
{
    let c = chars_of(s);
    let u = to_upper(c.as_slice());
    if chars_are(u.as_slice(), "H264") {
        Codec::H264
    } else if chars_are(u.as_slice(), "H265") || chars_are(u.as_slice(), "HEVC") {
        Codec::H265
    } else {
        Codec::Av1
    }
}

// ---------------------------------------------------------------- output names
/// `s`, or the word "output".
pub open spec fn or_output(s: Option<Seq<char>>) -> Seq<char> {
    match s {
        Some(s) => s,
        None => "output"@,
    }
}

/// The output name for a file: its last name with the extension of the output,
/// whatever folders it came with.
pub open spec fn out_name_of(pl: Platform, filename: Seq<char>) -> Seq<char> {
    or_output(file_stem_of(pl, or_output(file_name_of(pl, filename)))) + ".mp4"@
}

fn output_or(s: Option<String>) -> (r: String)
    ensures
        r@ == or_output(
            match s {
                Some(s) => Some(s@),
                None => None,
            },
        ),
{
    match s {
        Some(s) => s,
        None => "output".to_string(),
    }
}

/// The output name for a file.
pub fn out_name(pl: Platform, filename: &str) -> (r: String)
    ensures
        r@ == out_name_of(pl, filename@),
{
    let base = output_or(file_name(pl, filename));
    let stem = output_or(file_stem(pl, base.as_str()));
    concat2(stem.as_str(), ".mp4")
}

/// The names to try for an output: the plain one, then numbered ones from 2 on.
pub open spec fn candidate(pl: Platform, filename: Seq<char>, n: int) -> Seq<char> {
    let base = out_name_of(pl, filename);
    if n < 2 {
        base
    } else {
        or_output(file_stem_of(pl, base)) + " ("@ + dec(n) + ").mp4"@
    }
}

/// Whether `name` is the first name for an output that is not taken.
pub open spec fn is_first_free(
    pl: Platform,
    filename: Seq<char>,
    used: Set<Seq<char>>,
    name: Seq<char>,
) -> bool {
    exists|n: int|
        {
            &&& n >= 1
            &&& name == #[trigger] candidate(pl, filename, n)
            &&& !used.contains(name)
            &&& forall|m: int| 1 <= m < n ==> used.contains(#[trigger] candidate(pl, filename, m))
        }
}

/// Numbered names differ.
pub proof fn candidates_differ(pl: Platform, filename: Seq<char>, m: int, n: int)
    requires
        2 <= m,
        2 <= n,
        candidate(pl, filename, m) == candidate(pl, filename, n),
    ensures
        m == n,
{
    let head = or_output(file_stem_of(pl, out_name_of(pl, filename))) + " ("@;
    let (a, b) = (candidate(pl, filename, m), candidate(pl, filename, n));
    reveal_strlit(").mp4");
    assert(dec(m) =~= a.subrange(head.len() as int, a.len() - 5));
    assert(dec(n) =~= b.subrange(head.len() as int, b.len() - 5));
    printing_is_injective(m, n);
}

proof fn lemma_tried_fit(pl: Platform, filename: Seq<char>, used: Set<Seq<char>>, n: int)
    requires
        used.finite(),
        n >= 2,
        forall|m: int| 2 <= m < n ==> used.contains(#[trigger] candidate(pl, filename, m)),
    ensures
        n - 2 <= used.len(),
{
    let tried = Seq::new((n - 2) as nat, |i: int| candidate(pl, filename, i + 2));
    assert(tried.no_duplicates()) by {
        assert forall|i: int, j: int| 0 <= i < j < tried.len() implies tried[i] != tried[j] by {
            if tried[i] == tried[j] {
                candidates_differ(pl, filename, i + 2, j + 2);
            }
        }
    }
    tried.unique_seq_to_set();
    assert(tried.to_set().subset_of(used)) by {
        assert forall|x: Seq<char>| tried.to_set().contains(x) implies used.contains(x) by {
            let i = choose|i: int| 0 <= i < tried.len() && tried[i] == x;
            assert(used.contains(candidate(pl, filename, i + 2)));
        }
    }
    vstd::set_lib::lemma_len_subset(tried.to_set(), used);
}

/// Reserves a name for an output that no other job has, and returns it. Names
/// that are taken get a number: " (2)", " (3)" and so on.
pub fn reserve_name(pl: Platform, used: &mut TextSet, filename: &str) -> (r: String)
    requires
        old(used).wf(),
        old(used)@.len() < i32::MAX - 2,
    ensures
        final(used).wf(),
        is_first_free(pl, filename@, old(used)@, r@),
        final(used)@ == old(used)@.insert(r@),
{
    let base = out_name(pl, filename);
    let stem = output_or(file_stem(pl, base.as_str()));
    let mut name = base;
    let mut n: u64 = 1;
    proof {
        used.lemma_finite();
    }
    while used.contains(name.as_str())
        invariant
            used.wf(),
            *used == *old(used),
            used@.finite(),
            used@.len() < i32::MAX - 2,
            stem@ == or_output(file_stem_of(pl, out_name_of(pl, filename@))),
            1 <= n <= used@.len() + 2,
            name@ == candidate(pl, filename@, n as int),
            forall|m: int|
                1 <= m < n ==> used@.contains(#[trigger] candidate(pl, filename@, m)),
        decreases used@.len() + 2 - n,
    {
        n += 1;
        name = concat3(stem.as_str(), " (", print_u64(n).as_str());
        name.append(").mp4");
        proof {
            lemma_tried_fit(pl, filename@, used@, n as int);
        }
    }
    used.insert(name.as_str());
    name
}

/// Whether a path is that of a name in a folder which is the first free one.
pub open spec fn is_reserved_path(
    pl: Platform,
    out_dir: Seq<char>,
    filename: Seq<char>,
    used: Set<Seq<char>>,
    now_used: Set<Seq<char>>,
    path: Seq<char>,
) -> bool {
    exists|name: Seq<char>|
        {
            &&& #[trigger] is_first_free(pl, filename, used, name)
            &&& now_used == used.insert(name)
            &&& path == joined(pl, out_dir, name)
        }
}

/// Reserves a path in the output folder that no other job has.
pub fn reserve_out(pl: Platform, used: &mut TextSet, out_dir: &str, filename: &str) -> (r: String)
    requires
        old(used).wf(),
        old(used)@.len() < i32::MAX - 2,
    ensures
        final(used).wf(),
        is_reserved_path(pl, out_dir@, filename@, old(used)@, final(used)@, r@),
{
    let name = reserve_name(pl, used, filename);
    join(pl, out_dir, name.as_str())
}

/// The names in use once the output at a path is gone.
pub open spec fn released(pl: Platform, used: Set<Seq<char>>, path: Seq<char>) -> Set<Seq<char>> {
    match file_name_of(pl, path) {
        Some(n) => used.remove(n),
        None => used,
    }
}

/// Gives the name of an output free again.
pub fn release_out(pl: Platform, used: &mut TextSet, path: &str)
    requires
        old(used).wf(),
    ensures
        final(used).wf(),
        final(used)@ == released(pl, old(used)@, path@),
{
    match file_name(pl, path) {
        Some(n) => {
            let was = used.remove(n.as_str());
        },
        None => {},
    }
}

// ---------------------------------------------------------------- the command, as shown
/// The word at `i` of a command, as it is shown: the source and the target have
/// placeholders.
pub open spec fn shown_arg(args: Seq<Seq<char>>, i: int) -> Seq<char> {
    if i > 0 && args[i - 1] == "-i"@ {
        "{source}"@
    } else if i == args.len() - 1 {
        "{target}"@
    } else {
        args[i]
    }
}

/// A program and the first `k` words of its command, as they are shown.
pub open spec fn shown_args(program: Seq<char>, args: Seq<Seq<char>>, k: int) -> Seq<char>
    decreases k,
{
    if k <= 0 {
        program
    } else {
        shown_args(program, args, k - 1).push(' ') + shown_arg(args, k - 1)
    }
}

/// A command, as it is shown.
pub open spec fn shown_command(program: Seq<char>, args: Seq<Seq<char>>) -> Seq<char> {
    shown_args(program, args, args.len() as int)
}

/// A command of a program, as it is shown.
pub fn display_cmd_of(program: &str, args: &Vec<String>) -> (r: String)
    ensures
        r@ == shown_command(program@, texts(args@)),
{
    let ghost all = texts(args@);
    let mut disp = program.to_string();
    let n = args.len();
    let mut i: usize = 0;
    while i < n
        invariant
            i <= n == args@.len(),
            all == texts(args@),
            disp@ == shown_args(program@, all, i as int),
        decreases n - i,
    {
        disp.push(' ');
        assert(all[i as int] == args@[i as int]@);
        if i > 0 {
            assert(all[i - 1] == args@[i - 1]@);
        }
        if i > 0 && text_eq(args[i - 1].as_str(), "-i") {
            disp.append("{source}");
        } else if i == n - 1 {
            disp.append("{target}");
        } else {
            disp.append(args[i].as_str());
        }
        i += 1;
    }
    disp
}

/// The command as it is shown: "ffmpeg … {source} … {target}".
pub fn display_cmd(args: &Vec<String>) -> (r: String)
    ensures
        r@ == shown_command("ffmpeg"@, texts(args@)),
{
    display_cmd_of("ffmpeg", args)
}

// ---------------------------------------------------------------- jobs
/// A job that a client submitted.
pub struct Job {
    /// The client that submitted it; 0 for none.
    pub client: usize,
    pub filename: String,
    pub size: u64,
    /// Whether the daemon reads the file from its own disk.
    pub local: bool,
    pub crop: CropMode,
    pub codec: Codec,
    pub preset: String,
    pub bitrate_idx: usize,
    pub state: String,
    pub cancel: bool,
}

/// The contents of a [`Job`].
#[verifier::ext_equal]
pub struct JobView {
    pub client: int,
    pub filename: Seq<char>,
    pub size: int,
    pub local: bool,
    pub crop: CropMode,
    pub codec: Codec,
    pub preset: Seq<char>,
    pub bitrate_idx: int,
    pub state: Seq<char>,
    pub cancel: bool,
}

impl Job {
    pub open spec fn view(&self) -> JobView {
        JobView {
            client: self.client as int,
            filename: self.filename@,
            size: self.size as int,
            local: self.local,
            crop: self.crop,
            codec: self.codec,
            preset: self.preset@,
            bitrate_idx: self.bitrate_idx as int,
            state: self.state@,
            cancel: self.cancel,
        }
    }
}

/// The contents of some jobs.
pub open spec fn jobs_of(m: Map<Seq<char>, Job>) -> Map<Seq<char>, JobView> {
    Map::new(|k: Seq<char>| m.contains_key(k), |k: Seq<char>| m[k]@)
}

/// The daemon's state.
pub struct Daemon {
    token: String,
    target: usize,
    jobs: TextMap<Job>,
    queue: Vec<String>,
    running: TextSet,
}

/// The contents of a [`Daemon`].
#[verifier::ext_equal]
pub struct DaemonView {
    /// What a client must know to be let in.
    pub token: Seq<char>,
    /// How many jobs may run at once.
    pub target: int,
    pub jobs: Map<Seq<char>, JobView>,
    /// The jobs that wait, the next one first.
    pub queue: Seq<Seq<char>>,
    /// The jobs that run.
    pub running: Set<Seq<char>>,
}

/// What the caller is to do.
pub enum Action {
    Nothing,
    /// Send the client this message.
    Reply { msg: D2C },
    /// Type this to the job's ffmpeg, where it has one.
    Feed { job_id: String, keys: String },
}

/// What came of opening the local file that a client named.
pub enum Opened {
    /// No file was named.
    NotAsked,
    /// The file is this long.
    Size { len: u64 },
    /// The file could not be opened, and why.
    Failed { why: String },
}

/// A state message.
pub open spec fn says_state(
    m: D2C,
    job_id: Seq<char>,
    state: Seq<char>,
    detail: Seq<char>,
) -> bool {
    m matches D2C::State { job_id: j, state: s, detail: d } && j@ == job_id && s@ == state && d@
        == detail
}

/// The text without any of the texts equal to `gone`.
pub open spec fn without(q: Seq<Seq<char>>, gone: Seq<char>) -> Seq<Seq<char>>
    decreases q.len(),
{
    if q.len() == 0 {
        Seq::empty()
    } else if q.last() == gone {
        without(q.drop_last(), gone)
    } else {
        without(q.drop_last(), gone).push(q.last())
    }
}

/// `n` held between 1 and 64.
pub open spec fn parallel_of(n: int) -> int {
    if n < 1 {
        1
    } else if n > 64 {
        64
    } else {
        n
    }
}

/// The job that a submission makes.
pub open spec fn submitted_job(
    client: int,
    filename: Seq<char>,
    size: int,
    local: bool,
    crop: u8,
    codec: Seq<char>,
    preset: Seq<char>,
    bitrate_idx: int,
) -> JobView {
    JobView {
        client,
        filename,
        size,
        local,
        crop: match crop {
            1 => CropMode::Centered,
            2 => CropMode::OneThird,
            _ => CropMode::NoCrop,
        },
        codec: codec_named(codec),
        preset,
        bitrate_idx,
        state: "queued"@,
        cancel: false,
    }
}

/// Whether the daemon went from `d` to `e` and answered with `a` as it should
/// when a client sent `msg`.
pub open spec fn handled(
    d: DaemonView,
    e: DaemonView,
    client: int,
    msg: C2D,
    opened: Opened,
    a: Action,
) -> bool {
    match msg {
        C2D::Submit {
            job_id,
            filename,
            size,
            crop,
            codec,
            preset,
            bitrate_idx,
            local_path,
        } => match (local_path, opened) {
            (Some(p), Opened::Failed { why }) => {
                &&& e == d
                &&& a matches Action::Reply { msg: m } && says_state(
                    m,
                    job_id@,
                    "failed"@,
                    "couldn't open local file: "@ + why@,
                )
            },
            _ => {
                &&& e == (DaemonView {
                    jobs: d.jobs.insert(
                        job_id@,
                        submitted_job(
                            client,
                            filename@,
                            match (local_path, opened) {
                                (Some(p), Opened::Size { len }) => len as int,
                                _ => size as int,
                            },
                            local_path is Some,
                            crop,
                            codec@,
                            preset@,
                            bitrate_idx as int,
                        ),
                    ),
                    queue: d.queue.push(job_id@),
                    ..d
                })
                &&& a matches Action::Reply { msg: m } && says_state(m, job_id@, "queued"@, ""@)
            },
        },
        C2D::Cancel { job_id } => {
            &&& e == (DaemonView {
                queue: without(d.queue, job_id@),
                jobs: if d.jobs.contains_key(job_id@) {
                    d.jobs.insert(job_id@, JobView { cancel: true, ..d.jobs[job_id@] })
                } else {
                    d.jobs
                },
                ..d
            })
            &&& if d.jobs.contains_key(job_id@) {
                a matches Action::Feed { job_id: j, keys } && j@ == job_id@ && keys@ == "q"@
            } else {
                a is Nothing
            }
        },
        C2D::SetParallel { n } => {
            &&& e == (DaemonView { target: parallel_of(n as int), ..d })
            &&& a is Nothing
        },
        C2D::Key { job_id, key } => {
            &&& e == d
            &&& if d.jobs.contains_key(job_id@) {
                a matches Action::Feed { job_id: j, keys } && j@ == job_id@ && keys@ == key@
            } else {
                a is Nothing
            }
        },
        C2D::Hello { token, name } => e == d && a is Nothing,
    }
}

/// Whether a client that says `msg` first is let in.
pub open spec fn is_welcome(token: Seq<char>, tag: u8, msg: Option<C2D>) -> bool {
    tag == TAG_CTRL && (msg matches Some(C2D::Hello { token: t, name }) && t@ == token)
}

/// What to do with a new connection.
pub enum Admission {
    /// Drop it without a word.
    Drop,
    /// Send this and drop it.
    Refuse { msg: D2C },
    /// Let it in under this name, and send this.
    Admit { name: String, msg: D2C },
}

/// Decides about a new connection by its first frame: its tag, and the message
/// in it where it holds one.
pub fn decide_admission(token: &str, tag: u8, msg: Option<C2D>) -> (r: Admission)
    ensures
        match r {
            Admission::Drop => tag != TAG_CTRL,
            Admission::Refuse { msg: m } => tag == TAG_CTRL && !is_welcome(token@, tag, msg) && (
            m matches D2C::Denied { msg: t } && t@ == "auth"@),
            Admission::Admit { name, msg: m } => is_welcome(token@, tag, msg) && (
            msg matches Some(C2D::Hello { token: t, name: n }) && n@ == name@) && (
            m matches D2C::Welcome { msg: t } && t@ == "hello "@ + name@),
        },
{
    if tag != TAG_CTRL {
        return Admission::Drop;
    }
    match msg {
        Some(C2D::Hello { token: t, name }) => {
            if text_eq(t.as_str(), token) {
                let text = concat2("hello ", name.as_str());
                return Admission::Admit { name, msg: D2C::Welcome { msg: text } };
            }
        },
        _ => {},
    }
    Admission::Refuse { msg: D2C::Denied { msg: "auth".to_string() } }
}

/// What a frame from a client that was let in is.
pub enum Incoming {
    /// The reply to a block request.
    Block { req_id: u64, data: Vec<u8> },
    /// A control message in JSON.
    Control,
    /// Nothing that is understood.
    Other,
}

/// Tells what a frame from a client is.
pub fn incoming(tag: u8, payload: &[u8]) -> (r: Incoming)
    ensures
        match r {
            Incoming::Block { req_id, data } => tag == TAG_BLOCK && block_in(payload@) == Some(
                (req_id as int, data@),
            ),
            Incoming::Control => tag == TAG_CTRL,
            Incoming::Other => tag != TAG_CTRL && (tag == TAG_BLOCK ==> block_in(
                payload@,
            ) is None),
        },
{
    if tag == TAG_CTRL {
        Incoming::Control
    } else if tag == TAG_BLOCK {
        match parse_block(payload) {
            Some((req_id, bytes)) => {
                let mut data: Vec<u8> = Vec::new();
                data.extend_from_slice(bytes);
                assert(data@ =~= bytes@);
                Incoming::Block { req_id, data }
            },
            None => Incoming::Other,
        }
    } else {
        Incoming::Other
    }
}

/// Which of a client's outgoing messages goes next.
#[derive(Clone, Copy, PartialEq, Eq, Structural, Debug)]
pub enum Outgoing {
    Control,
    Chunk,
    Wait,
}

/// Picks what is sent next: control messages first, as ffmpeg waits for the
/// blocks they ask for; a piece of a result only where no control message waits.
pub fn next_outgoing(control_waits: bool, chunk_waits: bool) -> (r: Outgoing)
    ensures
        r == Outgoing::Control <==> control_waits,
        r == Outgoing::Chunk <==> chunk_waits && !control_waits,
{
    if control_waits {
        Outgoing::Control
    } else if chunk_waits {
        Outgoing::Chunk
    } else {
        Outgoing::Wait
    }
}

fn state_msg(job_id: &str, state: &str, detail: &str) -> (r: D2C)
    ensures
        says_state(r, job_id@, state@, detail@),
{
    D2C::State {
        job_id: job_id.to_string(),
        state: state.to_string(),
        detail: detail.to_string(),
    }
}

/// How a job begins.
#[derive(Clone, Copy, PartialEq, Eq, Structural, Debug)]
pub enum Begin {
    /// There is no such job.
    Missing,
    /// It was cancelled while it waited.
    Cancelled,
    /// Its input is to be probed.
    Probe,
}

impl Daemon {
    pub closed spec fn view(&self) -> DaemonView {
        DaemonView {
            token: self.token@,
            target: self.target as int,
            jobs: jobs_of(self.jobs@),
            queue: texts(self.queue@),
            running: self.running@,
        }
    }

    pub closed spec fn wf(&self) -> bool {
        self.jobs.wf() && self.running.wf()
    }

    /// A daemon without jobs. Two jobs may run at once.
    pub fn new(token: &str) -> (r: Daemon)
        ensures
            r.wf(),
            r@ == (DaemonView {
                token: token@,
                target: 2,
                jobs: Map::empty(),
                queue: Seq::empty(),
                running: Set::empty(),
            }),
    {
        let r = Daemon {
            token: token.to_string(),
            target: 2,
            jobs: TextMap::new(),
            queue: Vec::new(),
            running: TextSet::new(),
        };
        assert(r@.jobs =~= Map::<Seq<char>, JobView>::empty());
        assert(r@.queue =~= Seq::<Seq<char>>::empty());
        r
    }

    fn drop_queued(&mut self, job_id: &str)
        requires
            old(self).wf(),
        ensures
            final(self).wf(),
            final(self)@ == (DaemonView {
                queue: without(old(self)@.queue, job_id@),
                ..old(self)@
            }),
    {
        let mut kept: Vec<String> = Vec::new();
        let ghost all = texts(self.queue@);
        assert(texts(kept@) =~= without(all.take(0), job_id@));
        let mut i: usize = 0;
        while i < self.queue.len()
            invariant
                i <= self.queue@.len(),
                all == texts(self.queue@),
                *self == *old(self),
                texts(kept@) == without(all.take(i as int), job_id@),
            decreases self.queue@.len() - i,
        {
            assert(all.take(i + 1).drop_last() =~= all.take(i as int));
            assert(all.take(i + 1).last() == self.queue@[i as int]@);
            if !text_eq(self.queue[i].as_str(), job_id) {
                let t = self.queue[i].clone();
                proof {
                    lemma_texts_push(kept@, t);
                }
                kept.push(t);
            }
            i += 1;
        }
        assert(all.take(self.queue@.len() as int) =~= all);
        self.queue = kept;
    }

    fn put_job(&mut self, job_id: &str, job: Job)
        requires
            old(self).wf(),
        ensures
            final(self).wf(),
            final(self)@ == (DaemonView {
                jobs: old(self)@.jobs.insert(job_id@, job@),
                ..old(self)@
            }),
    {
        self.jobs.insert(job_id, job);
        assert(self@.jobs =~= old(self)@.jobs.insert(job_id@, job@));
    }

    fn enqueue(&mut self, job_id: &str)
        requires
            old(self).wf(),
        ensures
            final(self).wf(),
            final(self)@ == (DaemonView { queue: old(self)@.queue.push(job_id@), ..old(self)@ }),
    {
        let t = job_id.to_string();
        proof {
            lemma_texts_push(self.queue@, t);
        }
        self.queue.push(t);
    }

    /// Handles a message from a client that was let in. `opened` tells what came
    /// of opening the file that a submission named.
    pub fn handle_c2d(&mut self, client: usize, msg: C2D, opened: Opened) -> (r: Action)
        requires
            old(self).wf(),
            msg matches C2D::Submit { local_path: Some(p), .. } ==> !(opened is NotAsked),
        ensures
            final(self).wf(),
            handled(old(self)@, final(self)@, client as int, msg, opened, r),
    {
        match msg {
            C2D::Submit {
                job_id,
                filename,
                size,
                crop,
                codec,
                preset,
                bitrate_idx,
                local_path,
            } => {
                let local = local_path.is_some();
                let real_size: u64 = if local {
                    match opened {
                        Opened::Failed { why } => {
                            let detail = concat2("couldn't open local file: ", why.as_str());
                            return Action::Reply {
                                msg: state_msg(job_id.as_str(), "failed", detail.as_str()),
                            };
                        },
                        Opened::Size { len } => len,
                        Opened::NotAsked => size,
                    }
                } else {
                    size
                };
                let job = Job {
                    client,
                    filename,
                    size: real_size,
                    local,
                    crop: crop_from(crop),
                    codec: codec_from(codec.as_str()),
                    preset,
                    bitrate_idx,
                    state: "queued".to_string(),
                    cancel: false,
                };
                self.put_job(job_id.as_str(), job);
                self.enqueue(job_id.as_str());
                Action::Reply { msg: state_msg(job_id.as_str(), "queued", "") }
            },
            C2D::Cancel { job_id } => {
                self.drop_queued(job_id.as_str());
                let ghost mid = self@;
                match self.jobs.remove(job_id.as_str()) {
                    Some(mut job) => {
                        job.cancel = true;
                        assert(mid.jobs.contains_key(job_id@));
                        assert(mid.jobs[job_id@] == (JobView {
                            cancel: mid.jobs[job_id@].cancel,
                            ..job@
                        }));
                        self.put_job(job_id.as_str(), job);
                        assert(self@.jobs =~= mid.jobs.insert(
                            job_id@,
                            JobView { cancel: true, ..mid.jobs[job_id@] },
                        ));
                        Action::Feed { job_id, keys: "q".to_string() }
                    },
                    None => {
                        assert(self@.jobs =~= mid.jobs);
                        Action::Nothing
                    },
                }
            },
            C2D::SetParallel { n } => {
                self.target =
                if n < 1 {
                    1
                } else if n > 64 {
                    64
                } else {
                    n
                };
                Action::Nothing
            },
            C2D::Key { job_id, key } => {
                if self.jobs.contains(job_id.as_str()) {
                    Action::Feed { job_id, keys: key }
                } else {
                    Action::Nothing
                }
            },
            C2D::Hello { .. } => Action::Nothing,
        }
    }

    /// The job to start now: the first that waits, where fewer run than may.
    pub fn next_job(&mut self) -> (r: Option<String>)
        requires
            old(self).wf(),
        ensures
            final(self).wf(),
            match r {
                Some(id) => {
                    &&& may_start(old(self)@)
                    &&& old(self)@.queue.len() > 0
                    &&& id@ == old(self)@.queue[0]
                    &&& final(self)@ == (DaemonView {
                        queue: old(self)@.queue.drop_first(),
                        running: old(self)@.running.insert(id@),
                        ..old(self)@
                    })
                },
                None => {
                    &&& !may_start(old(self)@) || old(self)@.queue.len() == 0
                    &&& final(self)@ == old(self)@
                },
            },
    {
        let limit: usize = if self.target < 1 {
            1
        } else {
            self.target
        };
        if self.running.len() >= limit || self.queue.len() == 0 {
            return None;
        }
        let ghost all = texts(self.queue@);
        let id = self.queue.remove(0);
        assert(texts(self.queue@) =~= all.drop_first());
        assert(all[0] == id@);
        self.running.insert(id.as_str());
        Some(id)
    }

    /// A job has come to its end.
    pub fn job_done(&mut self, job_id: &str)
        requires
            old(self).wf(),
        ensures
            final(self).wf(),
            final(self)@ == (DaemonView {
                running: old(self)@.running.remove(job_id@),
                ..old(self)@
            }),
    {
        let was = self.running.remove(job_id);
    }

    /// Notes a job's state. Gives the message and the client to send it to,
    /// where there is one.
    pub fn set_state(&mut self, job_id: &str, state: &str, detail: &str) -> (r: Option<
        (usize, D2C),
    >)
        requires
            old(self).wf(),
        ensures
            final(self).wf(),
            final(self)@ == (DaemonView {
                jobs: if old(self)@.jobs.contains_key(job_id@) {
                    old(self)@.jobs.insert(
                        job_id@,
                        JobView { state: state@, ..old(self)@.jobs[job_id@] },
                    )
                } else {
                    old(self)@.jobs
                },
                ..old(self)@
            }),
            match r {
                Some((c, m)) => {
                    &&& old(self)@.jobs.contains_key(job_id@)
                    &&& c != 0 && c == old(self)@.jobs[job_id@].client
                    &&& says_state(m, job_id@, state@, detail@)
                },
                None => !old(self)@.jobs.contains_key(job_id@) || old(
                    self,
                )@.jobs[job_id@].client == 0,
            },
    {
        let ghost was = self@;
        match self.jobs.remove(job_id) {
            Some(mut job) => {
                assert(was.jobs.contains_key(job_id@));
                assert(was.jobs[job_id@] == (JobView { state: was.jobs[job_id@].state, ..job@ }));
                job.state = state.to_string();
                let client = job.client;
                self.put_job(job_id, job);
                assert(self@.jobs =~= was.jobs.insert(
                    job_id@,
                    JobView { state: state@, ..was.jobs[job_id@] },
                ));
                if client != 0 {
                    Some((client, state_msg(job_id, state, detail)))
                } else {
                    None
                }
            },
            None => {
                assert(self@.jobs =~= was.jobs);
                None
            },
        }
    }

    /// Tells how a job that was started begins. One that was cancelled while it
    /// waited does not run.
    pub fn begin(&self, job_id: &str) -> (r: Begin)
        requires
            self.wf(),
        ensures
            r == Begin::Missing <==> !self@.jobs.contains_key(job_id@),
            r == Begin::Cancelled <==> self@.jobs.contains_key(job_id@)
                && self@.jobs[job_id@].cancel,
    {
        match self.jobs.get(job_id) {
            None => Begin::Missing,
            Some(job) => if job.cancel {
                Begin::Cancelled
            } else {
                Begin::Probe
            },
        }
    }

    /// A job.
    pub fn job(&self, job_id: &str) -> (r: Option<&Job>)
        requires
            self.wf(),
        ensures
            match r {
                Some(j) => self@.jobs.contains_key(job_id@) && j@ == self@.jobs[job_id@],
                None => !self@.jobs.contains_key(job_id@),
            },
    {
        self.jobs.get(job_id)
    }

    /// Queues the job that tries a local file out.
    pub fn inject_test(
        &mut self,
        pl: Platform,
        file: &str,
        size: u64,
        codec: &str,
        preset: &str,
        bitrate_idx: usize,
    )
        requires
            old(self).wf(),
        ensures
            final(self).wf(),
            final(self)@ == (DaemonView {
                jobs: old(self)@.jobs.insert(
                    "test"@,
                    submitted_job(
                        0,
                        match file_name_of(pl, file@) {
                            Some(n) => n,
                            None => "test"@,
                        },
                        size as int,
                        true,
                        3,
                        codec@,
                        preset@,
                        bitrate_idx as int,
                    ),
                ),
                queue: old(self)@.queue.push("test"@),
                ..old(self)@
            }),
    {
        let filename = match file_name(pl, file) {
            Some(n) => n,
            None => "test".to_string(),
        };
        let job = Job {
            client: 0,
            filename,
            size,
            local: true,
            crop: CropMode::NoCrop,
            codec: codec_from(codec),
            preset: preset.to_string(),
            bitrate_idx,
            state: "queued".to_string(),
            cancel: false,
        };
        self.put_job("test", job);
        self.enqueue("test");
    }

    /// How many jobs run.
    pub fn running_count(&self) -> (r: usize)
        requires
            self.wf(),
        ensures
            r == self@.running.len(),
    {
        self.running.len()
    }

    /// How many jobs wait.
    pub fn queue_count(&self) -> (r: usize)
        ensures
            r == self@.queue.len(),
    {
        self.queue.len()
    }
}

/// Whether another job may start.
pub open spec fn may_start(d: DaemonView) -> bool {
    d.running.len() < if d.target < 1 {
        1
    } else {
        d.target
    }
}

// ---------------------------------------------------------------- running a job
/// The address at which a job's input is served.
pub open spec fn shim_url_of(port: int, job_id: Seq<char>) -> Seq<char> {
    "http://127.0.0.1:"@ + dec(port) + "/"@ + job_id
}

/// The address at which a job's input is served.
pub fn shim_url(port: u16, job_id: &str) -> (r: String)
    ensures
        r@ == shim_url_of(port as int, job_id@),
{
    let mut r = concat3("http://127.0.0.1:", print_u64(port as u64).as_str(), "/");
    r.append(job_id);
    r
}

/// The arguments that make ffmpeg write a file that only ever grows, put before
/// the output.
pub open spec fn fragmented(args: Seq<Seq<char>>) -> Seq<Seq<char>> {
    args.drop_last() + seq![
        "-movflags"@,
        "+frag_keyframe+empty_moov+default_base_moof"@,
        args.last(),
    ]
}

/// How a job is run.
pub struct Plan {
    pub args: Vec<String>,
    pub info: String,
    pub target: StreamSummary,
    /// Whether the result goes to the client while it is written.
    pub remote: bool,
    /// The command, as it is shown.
    pub cmd: String,
}

/// The arguments for a job.
pub open spec fn plan_args(
    url: Seq<char>,
    out: Seq<char>,
    p: ProbeView,
    j: JobView,
    enc: VideoEncoder,
    remote: bool,
) -> Seq<Seq<char>> {
    let r = rates_of(j.bitrate_idx);
    let a = job_args(url, out, p, j.crop, j.preset, r.0, r.1, enc);
    if remote {
        fragmented(a)
    } else {
        a
    }
}

/// Whether a job's settings and what its input is like give machine numbers.
pub open spec fn plannable(p: ProbeView, bitrate_idx: int) -> bool {
    job_fits(p, rates_of(bitrate_idx).0, rates_of(bitrate_idx).1)
}

/// Tells whether a job's settings and what its input is like give machine numbers.
pub fn can_plan(probe: &ProbeResult, bitrate_idx: usize) -> (r: bool)
    ensures
        r == plannable(probe@, bitrate_idx as int),
{
    let (high, low) = rates(bitrate_idx);
    can_build(probe, high, low)
}

/// Plans a job: what ffmpeg is told, and what the client is told. The client
/// gets the result while it is written where the input comes from a client that
/// is still there (`connected`).
pub fn plan_job(
    url: &str,
    out: &str,
    probe: &ProbeResult,
    job: &Job,
    enc: VideoEncoder,
    connected: bool,
) -> (r: Plan)
    requires
        probe.wf(),
        plannable(probe@, job@.bitrate_idx),
    ensures
        r.remote == (!job@.local && connected),
        texts(r.args@) == plan_args(url@, out@, probe@, job@, enc, r.remote),
        r.cmd@ == shown_command("ffmpeg"@, texts(r.args@)),
        r.info@ == job_info(
            probe@,
            job@.crop,
            rates_of(job@.bitrate_idx).0,
            rates_of(job@.bitrate_idx).1,
            enc,
        ),
        r.target.wf(),
        r.target@ == job_target(
            probe@,
            job@.crop,
            rates_of(job@.bitrate_idx).0,
            rates_of(job@.bitrate_idx).1,
            enc,
        ),
{
    let (high, low) = rates(job.bitrate_idx);
    let (mut args, info, target) = build_args(
        url,
        out,
        probe,
        job.crop,
        job.preset.as_str(),
        high,
        low,
        enc,
    );
    let remote = !job.local && connected;
    if remote {
        let ghost all = texts(args@);
        let n = args.len();
        proof {
            assert(all.len() > 0);
        }
        args.insert(n - 1, "-movflags".to_string());
        args.insert(n, "+frag_keyframe+empty_moov+default_base_moof".to_string());
        assert(texts(args@) =~= fragmented(all));
    }
    let cmd = display_cmd(&args);
    Plan { args, info, target, remote, cmd }
}

/// How ffmpeg ended.
pub enum Exit {
    /// With this code.
    Code { code: i32 },
    /// Without a code.
    Killed,
    /// Waiting for it failed, and why.
    Lost { why: String },
}

/// What is told of a job that came to its end.
pub struct Outcome {
    pub state: String,
    pub detail: String,
    /// Whether the result is whole.
    pub ok: bool,
}

/// What became of a job: its state, what is said of it, and whether the result
/// is whole.
pub open spec fn outcome_of(exit: Exit, cancelled: bool, out: Seq<char>) -> (
    Seq<char>,
    Seq<char>,
    bool,
) {
    let ok = !cancelled && exit == (Exit::Code { code: 0 });
    (
        if cancelled {
            "cancelled"@
        } else if ok {
            "done"@
        } else {
            "failed"@
        },
        if cancelled || ok {
            out
        } else {
            match exit {
                Exit::Code { code } => "ffmpeg exit "@ + dec_int(code as int),
                Exit::Killed => "ffmpeg exit "@ + dec_int(-1),
                Exit::Lost { why } => why@,
            }
        },
        ok,
    )
}

/// Tells what became of a job.
pub fn job_outcome(exit: &Exit, cancelled: bool, out: &str) -> (r: Outcome)
    ensures
        (r.state@, r.detail@, r.ok) == outcome_of(*exit, cancelled, out@),
{
    if cancelled {
        return Outcome { state: "cancelled".to_string(), detail: out.to_string(), ok: false };
    }
    match exit {
        Exit::Code { code } => {
            if *code == 0 {
                Outcome { state: "done".to_string(), detail: out.to_string(), ok: true }
            } else {
                Outcome {
                    state: "failed".to_string(),
                    detail: concat2("ffmpeg exit ", print_i64(*code as i64).as_str()),
                    ok: false,
                }
            }
        },
        Exit::Killed => Outcome {
            state: "failed".to_string(),
            detail: concat2("ffmpeg exit ", print_i64(-1).as_str()),
            ok: false,
        },
        Exit::Lost { why } => Outcome {
            state: "failed".to_string(),
            detail: why.clone(),
            ok: false,
        },
    }
}

/// What reading on in the result of a job gave.
#[derive(Clone, Copy, PartialEq, Eq, Structural, Debug)]
pub enum Tail {
    /// Some bytes.
    Bytes,
    /// Nothing for now.
    Nothing,
    /// An error.
    Error,
}

/// What to do about it.
#[derive(Clone, Copy, PartialEq, Eq, Structural, Debug)]
pub enum TailStep {
    /// Send the bytes and read on behind them.
    Send,
    /// Wait and read again.
    Wait,
    /// Stop.
    Stop,
}

/// Follows a file while it is written. `finished` tells whether ffmpeg had ended
/// before the read: only then is the end of the file its real end.
pub fn tail_step(finished: bool, read: Tail) -> (r: TailStep)
    ensures
        r == TailStep::Send <==> read == Tail::Bytes,
        r == TailStep::Wait <==> read == Tail::Nothing && !finished,
{
    match read {
        Tail::Bytes => TailStep::Send,
        Tail::Nothing => if finished {
            TailStep::Stop
        } else {
            TailStep::Wait
        },
        Tail::Error => TailStep::Stop,
    }
}

/// The exit code of a try-out, once the job's state tells it.
pub fn test_exit(state: &str) -> (r: Option<i32>)
    ensures
        r == if state@ == "done"@ {
            Some(0i32)
        } else if state@ == "failed"@ {
            Some(1i32)
        } else {
            None
        },
{
    proof {
        reveal_strlit("done");
        reveal_strlit("failed");
    }
    if text_eq(state, "done") {
        Some(0)
    } else if text_eq(state, "failed") {
        Some(1)
    } else {
        None
    }
}

// ---------------------------------------------------------------- the command line
/// The position of the first text equal to `key` at or after `i`, or the length.
pub open spec fn first_at(args: Seq<Seq<char>>, key: Seq<char>, i: int) -> int
    decreases args.len() - i,
{
    if i < 0 || i >= args.len() {
        args.len() as int
    } else if args[i] == key {
        i
    } else {
        first_at(args, key, i + 1)
    }
}

/// The argument behind the first `key`.
pub open spec fn value_of(args: Seq<Seq<char>>, key: Seq<char>) -> Option<Seq<char>> {
    let k = first_at(args, key, 0);
    if k + 1 < args.len() {
        Some(args[k + 1])
    } else {
        None
    }
}

/// The argument behind the first `key`.
pub fn arg_val(args: &Vec<String>, key: &str) -> (r: Option<String>)
    ensures
        match r {
            Some(v) => value_of(texts(args@), key@) == Some(v@),
            None => value_of(texts(args@), key@) is None,
        },
{
    let ghost all = texts(args@);
    let n = args.len();
    let mut i: usize = 0;
    while i < n
        invariant
            i <= n == args@.len(),
            all == texts(args@),
            first_at(all, key@, 0) == first_at(all, key@, i as int),
        decreases n - i,
    {
        assert(all[i as int] == args@[i as int]@);
        if text_eq(args[i].as_str(), key) {
            if i + 1 < n {
                assert(all[i + 1] == args@[i + 1]@);
                return Some(args[i + 1].clone());
            }
            return None;
        }
        i += 1;
    }
    None
}

/// The port in a text, or `other`.
pub open spec fn port_of(s: Option<Seq<char>>, other: int) -> int {
    match s {
        Some(s) => match u64_of(s) {
            Some(n) => if n <= u16::MAX {
                n
            } else {
                other
            },
            None => other,
        },
        None => other,
    }
}

/// The port in a text, or `other` where there is none.
pub fn port_or(s: &Option<String>, other: u16) -> (r: u16)
    ensures
        r == port_of(
            match s {
                Some(s) => Some(s@),
                None => None,
            },
            other as int,
        ),
{
    match s {
        Some(s) => {
            let c = chars_of(s.as_str());
            match parse_u64(c.as_slice()) {
                Some(n) if n <= 65535 => n as u16,
                _ => other,
            }
        },
        None => other,
    }
}

/// What the daemon is told by its environment.
pub struct ServerEnv {
    pub ffmpeg: Option<String>,
    pub token: Option<String>,
    pub port: Option<String>,
    pub shim_port: Option<String>,
    pub out: Option<String>,
}

/// How the daemon is set up.
pub struct ServerCfg {
    pub ffmpeg: String,
    pub token: String,
    pub port: u16,
    pub shim_port: u16,
    pub out_dir: String,
}

/// The first of two texts that is there.
pub open spec fn either(a: Option<Seq<char>>, b: Option<Seq<char>>) -> Option<Seq<char>> {
    if a is Some {
        a
    } else {
        b
    }
}

/// A text, or another one where it is missing.
pub open spec fn text_or(a: Option<Seq<char>>, b: Seq<char>) -> Seq<char> {
    match a {
        Some(t) => t,
        None => b,
    }
}

fn first_of(a: Option<String>, b: &Option<String>) -> (r: Option<String>)
    ensures
        text_in(r) == either(text_in(a), text_in(*b)),
{
    match a {
        Some(t) => Some(t),
        None => match b {
            Some(t) => Some(t.clone()),
            None => None,
        },
    }
}

fn or_text(a: Option<String>, b: &str) -> (r: String)
    ensures
        r@ == text_or(text_in(a), b@),
{
    match a {
        Some(t) => t,
        None => b.to_string(),
    }
}

/// Sets the daemon up: an argument comes before the environment, and the
/// environment before the default. `temp_out` is the default for the output.
pub fn server_cfg(args: &Vec<String>, env: &ServerEnv, temp_out: &str) -> (r: ServerCfg)
    ensures
        ({
            let a = texts(args@);
            &&& r.ffmpeg@ == text_or(
                either(value_of(a, "--ffmpeg"@), text_in(env.ffmpeg)),
                "C:\\Util\\ffmpeg\\bin\\ffmpeg.exe"@,
            )
            &&& r.token@ == text_or(text_in(env.token), "changeme"@)
            &&& r.port == port_of(either(value_of(a, "--port"@), text_in(env.port)), 7878)
            &&& r.shim_port == port_of(text_in(env.shim_port), 7879)
            &&& r.out_dir@ == text_or(either(value_of(a, "--out"@), text_in(env.out)), temp_out@)
        }),
{
    ServerCfg {
        ffmpeg: or_text(
            first_of(arg_val(args, "--ffmpeg"), &env.ffmpeg),
            "C:\\Util\\ffmpeg\\bin\\ffmpeg.exe",
        ),
        token: or_text(env.token.clone(), "changeme"),
        port: port_or(&first_of(arg_val(args, "--port"), &env.port), 7878),
        shim_port: port_or(&env.shim_port, 7879),
        out_dir: or_text(first_of(arg_val(args, "--out"), &env.out), temp_out),
    }
}

/// A job that is run to try the daemon out.
pub struct TestJob {
    pub file: String,
    pub codec: String,
    pub preset: String,
    pub bitrate_idx: usize,
}

/// The rates that a text picks; the third where it picks none.
pub open spec fn rates_picked(s: Option<Seq<char>>) -> int {
    match s {
        Some(t) => match u64_of(t) {
            Some(n) => if n <= usize::MAX {
                n
            } else {
                2
            },
            None => 2,
        },
        None => 2,
    }
}

/// The job that the arguments ask to try, if they ask for one.
pub fn test_job(args: &Vec<String>) -> (r: Option<TestJob>)
    ensures
        match r {
            Some(t) => {
                let a = texts(args@);
                &&& value_of(a, "--test"@) == Some(t.file@)
                &&& t.codec@ == text_or(value_of(a, "--codec"@), "AV1"@)
                &&& t.preset@ == text_or(value_of(a, "--preset"@), "p1"@)
                &&& t.bitrate_idx == rates_picked(value_of(a, "--bitrate"@))
            },
            None => value_of(texts(args@), "--test"@) is None,
        },
{
    match arg_val(args, "--test") {
        Some(file) => {
            let bitrate_idx: usize = match arg_val(args, "--bitrate") {
                Some(b) => {
                    let c = chars_of(b.as_str());
                    match parse_u64(c.as_slice()) {
                        Some(n) if n <= usize::MAX as u64 => n as usize,
                        _ => 2,
                    }
                },
                None => 2,
            };
            Some(
                TestJob {
                    file,
                    codec: or_text(arg_val(args, "--codec"), "AV1"),
                    preset: or_text(arg_val(args, "--preset"), "p1"),
                    bitrate_idx,
                },
            )
        },
        None => None,
    }
}

/// Whether the daemon runs in the console: it is told to, or it has a test to run.
pub fn wants_console(args: &Vec<String>) -> (r: bool)
    ensures
        r == (texts(args@).contains("--headless"@) || value_of(texts(args@), "--test"@) is Some),
{
    holds_text(args, "--headless") || arg_val(args, "--test").is_some()
}

/// The port typed into the window; 7878 where it is no port.
pub fn typed_port(s: &str) -> (r: u16)
    ensures
        r == port_of(Some(trim(s@)), 7878),
{
    let c = chars_of(s);
    let t = trim_chars(c.as_slice());
    port_or(&Some(string_of(t.as_slice())), 7878)
}

// ---------------------------------------------------------------- laws
/// A name that is reserved is not given out again.
pub proof fn reserved_names_are_unique(
    pl: Platform,
    first: Seq<char>,
    second: Seq<char>,
    used: Set<Seq<char>>,
    a: Seq<char>,
    b: Seq<char>,
)
    requires
        is_first_free(pl, first, used, a),
        is_first_free(pl, second, used.insert(a), b),
    ensures
        a != b,
        !used.contains(a),
        !used.contains(b),
{
}

proof fn lemma_candidate_is_plain(pl: Platform, filename: Seq<char>, n: int)
    requires
        n >= 1,
    ensures
        is_plain_name(pl, candidate(pl, filename, n)),
{
    reveal_strlit("output");
    reveal_strlit(".mp4");
    reveal_strlit(" (");
    reveal_strlit(").mp4");
    file_name_has_no_separator(pl, filename);
    let base = or_output(file_name_of(pl, filename));
    file_name_has_no_separator(pl, base);
    let stem = or_output(file_stem_of(pl, base));
    lemma_stem_is_prefix(pl, base);
    let plain = out_name_of(pl, filename);
    assert forall|i: int| 0 <= i < plain.len() implies !is_sep(pl, #[trigger] plain[i]) by {
        if i < stem.len() {
            assert(plain[i] == stem[i]);
        } else {
            assert(plain[i] == ".mp4"@[i - stem.len()]);
        }
    }
    assert(plain.len() >= 4);
    assert(seq!['.'].len() == 1 && seq!['.', '.'].len() == 2);
    file_name_has_no_separator(pl, plain);
    lemma_stem_is_prefix(pl, plain);
    if n >= 2 {
        assert(candidate(pl, filename, n).len() >= 7);
        dec_is_its_value(n);
        let c = candidate(pl, filename, n);
        let st = or_output(file_stem_of(pl, plain));
        assert forall|i: int| 0 <= i < c.len() implies !is_sep(pl, #[trigger] c[i]) by {
            let k = i - st.len();
            if k < 0 {
                assert(c[i] == st[i]);
            } else if k < 2 {
                assert(c[i] == " ("@[k]);
            } else if k < 2 + dec(n).len() {
                assert(c[i] == dec(n)[k - 2]);
                assert(is_digit(dec(n)[k - 2]));
            } else {
                assert(c[i] == ").mp4"@[k - 2 - dec(n).len()]);
            }
        }
    }
}

proof fn lemma_stem_is_prefix(pl: Platform, s: Seq<char>)
    ensures
        file_name_of(pl, s) matches Some(n) ==> {
            let stem = stem_of(n);
            stem.len() <= n.len() && forall|i: int| 0 <= i < stem.len() ==> #[trigger] stem[i] == n[i]
        },
{
    if let Some(n) = file_name_of(pl, s) {
        lemma_last_dot(n);
    }
}

proof fn lemma_candidate_has_no_drive(pl: Platform, filename: Seq<char>, n: int)
    requires
        n >= 1,
        prefix_len(pl, out_name_of(pl, filename)) == 0,
    ensures
        prefix_len(pl, candidate(pl, filename, n)) == 0,
{
    let plain = out_name_of(pl, filename);
    lemma_candidate_is_plain(pl, filename, 1);
    lemma_candidate_is_plain(pl, filename, n);
    let c = candidate(pl, filename, n);
    assert(!is_sep(pl, c[0]));
    if n >= 2 {
        reveal_strlit(" (");
        reveal(joined);
        joined_name_is_last(pl, Seq::<char>::empty(), plain);
        assert(joined(pl, Seq::<char>::empty(), plain) =~= plain);
        lemma_stem_is_prefix(pl, plain);
        let st = or_output(file_stem_of(pl, plain));
        if st.len() == 0 {
            assert(c[0] == " ("@[0]);
        } else if st.len() == 1 {
            assert(c[1] == " ("@[0]);
        } else {
            assert(c[0] == st[0] && c[1] == st[1]);
        }
    }
}

/// An output name is a plain name, whatever a client calls its file, so an
/// output never leaves the folder for outputs. Left out are names on Windows that
/// begin with a drive of their own, and folders there that take no names.
pub proof fn output_stays_in_its_folder(
    pl: Platform,
    out_dir: Seq<char>,
    filename: Seq<char>,
    used: Set<Seq<char>>,
    now_used: Set<Seq<char>>,
    path: Seq<char>,
)
    requires
        is_reserved_path(pl, out_dir, filename, used, now_used, path),
        takes_names(pl, out_dir),
        prefix_len(pl, out_name_of(pl, filename)) == 0,
    ensures
        parent_of(pl, path) == Some(home(pl, out_dir)),
        file_name_of(pl, path) matches Some(n) && !used.contains(n) && now_used == used.insert(n),
{
    let name = choose|name: Seq<char>|
        {
            &&& #[trigger] is_first_free(pl, filename, used, name)
            &&& now_used == used.insert(name)
            &&& path == joined(pl, out_dir, name)
        };
    let n = choose|n: int|
        {
            &&& n >= 1
            &&& name == #[trigger] candidate(pl, filename, n)
            &&& !used.contains(name)
            &&& forall|m: int| 1 <= m < n ==> used.contains(#[trigger] candidate(pl, filename, m))
        };
    lemma_candidate_is_plain(pl, filename, n);
    lemma_candidate_has_no_drive(pl, filename, n);
    joined_name_is_last(pl, out_dir, name);
}

/// Releasing an output frees exactly the name that was reserved for it.
pub proof fn release_undoes_reserve(
    pl: Platform,
    out_dir: Seq<char>,
    filename: Seq<char>,
    used: Set<Seq<char>>,
    now_used: Set<Seq<char>>,
    path: Seq<char>,
)
    requires
        is_reserved_path(pl, out_dir, filename, used, now_used, path),
        takes_names(pl, out_dir),
        prefix_len(pl, out_name_of(pl, filename)) == 0,
    ensures
        released(pl, now_used, path) == used,
{
    output_stays_in_its_folder(pl, out_dir, filename, used, now_used, path);
    assert(released(pl, now_used, path) =~= used);
}

/// The first free name is unique, so the name of an output is determined.
pub proof fn first_free_is_one(
    pl: Platform,
    filename: Seq<char>,
    used: Set<Seq<char>>,
    a: Seq<char>,
    b: Seq<char>,
)
    requires
        is_first_free(pl, filename, used, a),
        is_first_free(pl, filename, used, b),
    ensures
        a == b,
{
    let m = choose|n: int|
        {
            &&& n >= 1
            &&& a == #[trigger] candidate(pl, filename, n)
            &&& !used.contains(a)
            &&& forall|m: int| 1 <= m < n ==> used.contains(#[trigger] candidate(pl, filename, m))
        };
    let n = choose|n: int|
        {
            &&& n >= 1
            &&& b == #[trigger] candidate(pl, filename, n)
            &&& !used.contains(b)
            &&& forall|m: int| 1 <= m < n ==> used.contains(#[trigger] candidate(pl, filename, m))
        };
    if m < n {
        assert(used.contains(candidate(pl, filename, m)));
    }
    if n < m {
        assert(used.contains(candidate(pl, filename, n)));
    }
}

proof fn lemma_without(q: Seq<Seq<char>>, gone: Seq<char>)
    ensures
        !without(q, gone).contains(gone),
        forall|x: Seq<char>|
            x != gone ==> (without(q, gone).contains(x) <==> #[trigger] q.contains(x)),
    decreases q.len(),
{
    if q.len() > 0 {
        let rest = q.drop_last();
        lemma_without(rest, gone);
        let w = without(q, gone);
        assert(q =~= rest.push(q.last()));
        if q.last() != gone {
            let v = without(rest, gone);
            assert(w == v.push(q.last()));
            if w.contains(gone) {
                let i = w.index_of(gone);
                assert(i < v.len());
                assert(v[i] == gone);
            }
            assert forall|x: Seq<char>| x != gone implies (w.contains(x) <==> #[trigger] q.contains(
                x,
            )) by {
                if w.contains(x) {
                    let i = w.index_of(x);
                    if i < v.len() {
                        assert(v[i] == x);
                        assert(rest.contains(x));
                        let j = rest.index_of(x);
                        assert(q[j] == x);
                    } else {
                        assert(q[q.len() - 1] == x);
                    }
                }
                if q.contains(x) {
                    let i = q.index_of(x);
                    if i < rest.len() {
                        assert(rest[i] == x);
                        assert(rest.contains(x));
                        let j = v.index_of(x);
                        assert(w[j] == x);
                    } else {
                        assert(w[w.len() - 1] == x);
                    }
                }
            }
        } else {
            assert forall|x: Seq<char>| x != gone implies (w.contains(x) <==> #[trigger] q.contains(
                x,
            )) by {
                if q.contains(x) {
                    let i = q.index_of(x);
                    assert(i < rest.len());
                    assert(rest[i] == x);
                }
                if rest.contains(x) {
                    let i = rest.index_of(x);
                    assert(q[i] == x);
                }
            }
        }
    }
}

/// A cancelled job waits no longer, so it is not started; the other jobs wait
/// on.
pub proof fn cancelled_job_is_not_started(
    d: DaemonView,
    e: DaemonView,
    client: int,
    job_id: String,
    opened: Opened,
    a: Action,
)
    requires
        handled(d, e, client, C2D::Cancel { job_id }, opened, a),
    ensures
        !e.queue.contains(job_id@),
        forall|x: Seq<char>|
            x != job_id@ ==> (e.queue.contains(x) <==> #[trigger] d.queue.contains(x)),
        d.jobs.contains_key(job_id@) ==> e.jobs[job_id@].cancel,
{
    lemma_without(d.queue, job_id@);
}

/// Starting jobs never lets more run than may.
pub proof fn target_is_respected(d: DaemonView, id: Seq<char>)
    requires
        may_start(d),
        d.running.finite(),
    ensures
        d.running.insert(id).len() <= if d.target < 1 {
            1
        } else {
            d.target
        },
{
}

/// Only who knows the token is let in.
pub proof fn token_is_needed(token: Seq<char>, tag: u8, msg: Option<C2D>)
    requires
        is_welcome(token, tag, msg),
    ensures
        msg matches Some(C2D::Hello { token: t, name }) && t@ == token,
{
}

/// A job that streams its result keeps everything else about its command.
pub proof fn streaming_only_adds(args: Seq<Seq<char>>)
    requires
        args.len() > 0,
    ensures
        fragmented(args).last() == args.last(),
        fragmented(args).len() == args.len() + 2,
        fragmented(args).take(args.len() - 1) == args.drop_last(),
{
    assert(fragmented(args).take(args.len() - 1) =~= args.drop_last());
}

/// A command as it is shown gives neither the source nor the target away.
pub proof fn shown_command_hides_paths(args: Seq<Seq<char>>, i: int)
    requires
        0 <= i < args.len(),
    ensures
        i > 0 && args[i - 1] == "-i"@ ==> shown_arg(args, i) == "{source}"@,
        i == args.len() - 1 && !(i > 0 && args[i - 1] == "-i"@) ==> shown_arg(args, i)
            == "{target}"@,
{
}

/// As many jobs may run at once as a client asks for, but at least one and no more
/// than 64; the next job starts exactly where fewer run.
pub proof fn as_many_run_as_were_asked_for(
    d: DaemonView,
    e: DaemonView,
    client: int,
    n: usize,
    opened: Opened,
    a: Action,
)
    requires
        handled(d, e, client, C2D::SetParallel { n }, opened, a),
    ensures
        1 <= n <= 64 ==> e.target == n && (may_start(e) <==> e.running.len() < n),
        n == 0 ==> e.target == 1 && (may_start(e) <==> e.running.len() == 0),
        n > 64 ==> e.target == 64 && (may_start(e) <==> e.running.len() < 64),
        e.jobs == d.jobs,
        e.queue == d.queue,
        e.running == d.running,
        e.token == d.token,
        a is Nothing,
{
}

/// A job that is submitted waits behind all others, with what the client said of it,
/// and the client is told so. One whose file on the daemon's disk cannot be opened
/// fails, and changes nothing.
pub proof fn submitted_job_waits_its_turn(
    d: DaemonView,
    e: DaemonView,
    client: int,
    msg: C2D,
    opened: Opened,
    a: Action,
)
    requires
        handled(d, e, client, msg, opened, a),
    ensures
        msg matches C2D::Submit {
            job_id,
            filename,
            size,
            crop,
            codec,
            preset,
            bitrate_idx,
            local_path,
        } ==> {
            let failed = local_path is Some && opened is Failed;
            let j = e.jobs[job_id@];
            &&& failed ==> e == d && (a matches Action::Reply { msg: m } && (
            m matches D2C::State { job_id: i, state, detail } && i@ == job_id@ && state@
                == "failed"@ && (opened matches Opened::Failed { why } && detail@
                == "couldn't open local file: "@ + why@)))
            &&& !failed ==> {
                &&& e.queue == d.queue.push(job_id@)
                &&& e.jobs.contains_key(job_id@)
                &&& j.client == client
                &&& j.filename == filename@
                &&& j.preset == preset@
                &&& j.bitrate_idx == bitrate_idx
                &&& j.state == "queued"@
                &&& !j.cancel
                &&& j.local == (local_path is Some)
                &&& local_path is None ==> j.size == size
                &&& local_path is Some ==> (opened matches Opened::Size { len } ==> j.size == len)
                &&& (j.crop == CropMode::Centered <==> crop == 1)
                &&& (j.crop == CropMode::OneThird <==> crop == 2)
                &&& (j.codec == Codec::H264 <==> ascii_upper(codec@) == "H264"@)
                &&& (j.codec == Codec::H265 <==> ascii_upper(codec@) == "H265"@ || ascii_upper(
                    codec@,
                ) == "HEVC"@)
                &&& forall|k: Seq<char>|
                    k != job_id@ ==> (#[trigger] e.jobs.contains_key(k) <==> d.jobs.contains_key(
                        k,
                    )) && (d.jobs.contains_key(k) ==> e.jobs[k] == d.jobs[k])
                &&& e.running == d.running
                &&& e.target == d.target
                &&& (a matches Action::Reply { msg: m } && (m matches D2C::State {
                    job_id: i,
                    state,
                    detail,
                } && i@ == job_id@ && state@ == "queued"@ && detail@ == ""@))
            }
        },
{
    reveal_strlit("H264");
    reveal_strlit("H265");
    reveal_strlit("HEVC");
    assert("H264"@[3] == '4' && "H265"@[3] == '5' && "HEVC"@[3] == 'C');
}

/// A key goes to the job's ffmpeg as it was typed, and cancelling types a q; a job
/// that does not exist gets nothing.
pub proof fn keys_go_to_their_job(
    d: DaemonView,
    e: DaemonView,
    client: int,
    msg: C2D,
    opened: Opened,
    a: Action,
)
    requires
        handled(d, e, client, msg, opened, a),
    ensures
        msg matches C2D::Key { job_id, key } ==> e == d && (d.jobs.contains_key(job_id@) ==> (
        a matches Action::Feed { job_id: j, keys } && j@ == job_id@ && keys@ == key@)) && (
        !d.jobs.contains_key(job_id@) ==> a is Nothing),
        msg matches C2D::Cancel { job_id } ==> (d.jobs.contains_key(job_id@) ==> (
        a matches Action::Feed { job_id: j, keys } && j@ == job_id@ && keys@ == "q"@)) && (
        !d.jobs.contains_key(job_id@) ==> a is Nothing && e.jobs == d.jobs) && e.running
            == d.running && e.target == d.target,
        msg is Hello ==> e == d && a is Nothing,
{
}

/// Cancelling takes one job out of the queue and keeps the order of the others.
pub proof fn cancelling_keeps_the_order(q: Seq<Seq<char>>, r: Seq<Seq<char>>, gone: Seq<char>)
    ensures
        without(q + r, gone) == without(q, gone) + without(r, gone),
        !q.contains(gone) ==> without(q, gone) == q,
        without(seq![gone], gone) == Seq::<Seq<char>>::empty(),
    decreases q.len() + r.len(),
{
    reveal_with_fuel(without, 2);
    let all = q + r;
    if r.len() > 0 {
        assert(all.drop_last() =~= q + r.drop_last());
        assert(all.last() == r.last());
        cancelling_keeps_the_order(q, r.drop_last(), gone);
        assert(without(all, gone) =~= without(q, gone) + without(r, gone));
    } else {
        assert(all =~= q);
        assert(without(q, gone) + without(r, gone) =~= without(q, gone));
    }
    if !q.contains(gone) && q.len() > 0 {
        assert(q.contains(q.last()));
        assert(!q.drop_last().contains(gone)) by {
            if q.drop_last().contains(gone) {
                let i = choose|i: int| 0 <= i < q.len() - 1 && q.drop_last()[i] == gone;
                assert(q[i] == gone);
            }
        }
        if r.len() > 0 {
            cancelling_keeps_the_order(q, r.drop_last(), gone);
        } else {
            cancelling_keeps_the_order(q.drop_last(), Seq::empty(), gone);
        }
        assert(q.drop_last().push(q.last()) =~= q);
    }
    assert(seq![gone].drop_last() =~= Seq::<Seq<char>>::empty());
}

/// The four settings of the rates go down in steps of 2000, and the low rate of each
/// is 2000 below the high one; what lies beyond the last is the last.
pub proof fn rates_go_down_in_steps(idx: int)
    ensures
        0 <= idx <= 3 ==> rates_of(idx).0 == 10000 - 2000 * idx,
        idx > 3 ==> rates_of(idx).0 == 4000,
        rates_of(idx).0 - rates_of(idx).1 == 2000,
{
}

/// A codec is known by its name, and by the one that others give H.265, in either
/// case.
pub proof fn codecs_are_known_by_their_names(c: Codec)
    ensures
        codec_named(c.spec_label()) == c,
        codec_named("h264"@) == Codec::H264,
        codec_named("h265"@) == Codec::H265,
        codec_named("hevc"@) == Codec::H265,
        codec_named("HEVC"@) == Codec::H265,
        codec_named("av1"@) == Codec::Av1,
{
    reveal_strlit("H264");
    reveal_strlit("H265");
    reveal_strlit("HEVC");
    reveal_strlit("AV1");
    reveal_strlit("h264");
    reveal_strlit("h265");
    reveal_strlit("hevc");
    reveal_strlit("av1");
    assert(ascii_upper("H264"@) =~= "H264"@);
    assert(ascii_upper("H265"@) =~= "H265"@);
    assert(ascii_upper("AV1"@) =~= "AV1"@);
    assert(ascii_upper("HEVC"@) =~= "HEVC"@);
    assert(ascii_upper("h264"@) =~= "H264"@);
    assert(ascii_upper("h265"@) =~= "H265"@);
    assert(ascii_upper("hevc"@) =~= "HEVC"@);
    assert(ascii_upper("av1"@) =~= "AV1"@);
    assert("H264"@[3] == '4' && "H265"@[3] == '5' && "HEVC"@[3] == 'C' && "AV1"@.len() == 3);
    assert("H264"@.len() == 4 && "H265"@.len() == 4 && "HEVC"@.len() == 4);
}

/// The words of a command stand in their order with a blank between them, the
/// program first, and a word that is neither the source nor the target is shown as
/// it is.
pub proof fn command_is_shown_in_order(program: Seq<char>, args: Seq<Seq<char>>, k: int)
    requires
        0 <= k < args.len(),
    ensures
        shown_args(program, args, 0) == program,
        shown_args(program, args, k + 1) == shown_args(program, args, k) + " "@ + shown_arg(
            args,
            k,
        ),
        k < args.len() - 1 && !(k > 0 && args[k - 1] == "-i"@) ==> shown_arg(args, k) == args[k],
        shown_command(program, args) == shown_args(program, args, args.len() as int),
{
    reveal_strlit(" ");
    assert(shown_args(program, args, k + 1) =~= shown_args(program, args, k) + " "@ + shown_arg(
        args,
        k,
    ));
}

/// ffmpeg reads a job's input at the shim: its address holds the port and the job.
pub proof fn input_is_read_at_the_shim(port: int, job_id: Seq<char>)
    ensures
        shim_url_of(port, job_id) == "http://127.0.0.1:"@ + dec(port) + "/"@ + job_id,
        crate::text::ends_with(shim_url_of(port, job_id), job_id),
{
    let s = shim_url_of(port, job_id);
    assert(s.subrange(s.len() - job_id.len(), s.len() as int) =~= job_id);
}

/// A result that goes out while it is written is written in fragments, right before
/// the name of the output.
pub proof fn streamed_result_is_fragmented(
    url: Seq<char>,
    out: Seq<char>,
    p: ProbeView,
    j: JobView,
    enc: VideoEncoder,
)
    ensures
        ({
            let r = rates_of(j.bitrate_idx);
            let plain = plan_args(url, out, p, j, enc, false);
            let a = plan_args(url, out, p, j, enc, true);
            let n = a.len();
            &&& plain == job_args(url, out, p, j.crop, j.preset, r.0, r.1, enc)
            &&& n == plain.len() + 2
            &&& a[n - 3] == "-movflags"@
            &&& a[n - 2] == "+frag_keyframe+empty_moov+default_base_moof"@
            &&& a[n - 1] == out
            &&& a.take(n - 3) == plain.drop_last()
        }),
{
    let r = rates_of(j.bitrate_idx);
    let plain = job_args(url, out, p, j.crop, j.preset, r.0, r.1, enc);
    let a = plan_args(url, out, p, j, enc, true);
    assert(a.take(a.len() - 3) =~= plain.drop_last());
}

/// A job is done where ffmpeg ended with zero and nobody cancelled it; what is said
/// of it is where its output is, or why it failed.
pub proof fn job_ends_as_ffmpeg_did(exit: Exit, cancelled: bool, out: Seq<char>)
    ensures
        ({
            let o = outcome_of(exit, cancelled, out);
            &&& cancelled ==> o == ("cancelled"@, out, false)
            &&& !cancelled ==> (exit matches Exit::Code { code } ==> (code == 0 ==> o == (
                "done"@,
                out,
                true,
            )) && (code != 0 ==> o == ("failed"@, "ffmpeg exit "@ + dec_int(code as int), false)))
            &&& !cancelled && exit is Killed ==> o == ("failed"@, "ffmpeg exit "@ + dec_int(-1), false)
            &&& !cancelled ==> (exit matches Exit::Lost { why } ==> o == ("failed"@, why@, false))
        }),
{
}

proof fn lemma_first_at(args: Seq<Seq<char>>, key: Seq<char>, i: int, k: int)
    requires
        0 <= i <= k < args.len(),
        args[k] == key,
        forall|j: int| i <= j < k ==> #[trigger] args[j] != key,
    ensures
        first_at(args, key, i) == k,
    decreases k - i,
{
    if i < k {
        lemma_first_at(args, key, i + 1, k);
    }
}

proof fn lemma_not_at(args: Seq<Seq<char>>, key: Seq<char>, i: int)
    requires
        0 <= i <= args.len(),
        !args.contains(key),
    ensures
        first_at(args, key, i) == args.len(),
    decreases args.len() - i,
{
    if i < args.len() {
        assert(args.contains(args[i]));
        lemma_not_at(args, key, i + 1);
    }
}

/// An option's value is the argument behind the first place where it stands; an
/// option that is missing or stands last has none.
pub proof fn option_has_the_value_behind_it(
    before: Seq<Seq<char>>,
    key: Seq<char>,
    val: Seq<char>,
    after: Seq<Seq<char>>,
)
    requires
        !before.contains(key),
    ensures
        value_of(before + seq![key, val] + after, key) == Some(val),
        value_of(before, key) is None,
        value_of(before.push(key), key) is None,
{
    let a = before + seq![key, val] + after;
    let n = before.len() as int;
    assert(a[n] == key && a[n + 1] == val);
    assert forall|j: int| 0 <= j < n implies #[trigger] a[j] != key by {
        assert(a[j] == before[j]);
        assert(before.contains(before[j]));
    }
    lemma_first_at(a, key, 0, n);
    lemma_not_at(before, key, 0);
    let b = before.push(key);
    assert forall|j: int| 0 <= j < n implies #[trigger] b[j] != key by {
        assert(b[j] == before[j]);
        assert(before.contains(before[j]));
    }
    lemma_first_at(b, key, 0, n);
}

/// A port is a number up to 65535; anything else leaves the default.
pub proof fn ports_are_read(n: int, other: int)
    requires
        n >= 0,
    ensures
        n <= 65535 ==> port_of(Some(dec(n)), other) == n,
        n > 65535 ==> port_of(Some(dec(n)), other) == other,
        port_of(None, other) == other,
        port_of(Some(""@), other) == other,
{
    reveal_strlit("");
    only_what_fits_is_read(n);
}

/// What is said on the command line goes before what the environment says, and that
/// before the default.
pub proof fn nearer_settings_go_first(a: Seq<char>, b: Option<Seq<char>>, c: Seq<char>)
    ensures
        text_or(either(Some(a), b), c) == a,
        b matches Some(t) ==> text_or(either(None, b), c) == t,
        text_or(either(None, None), c) == c,
{
}

/// The rates of a try-out are the ones picked, and the third where none are.
pub proof fn rates_are_picked(n: int)
    requires
        0 <= n <= u32::MAX,
    ensures
        rates_picked(Some(dec(n))) == n,
        rates_picked(None) == 2,
{
    only_what_fits_is_read(n);
}

/// Whether the name of a client and its token let it in: the token has to be the
/// same, and the first frame has to be a control frame.
pub proof fn who_knows_the_token_is_let_in(token: Seq<char>, tag: u8, t: String, name: String)
    ensures
        is_welcome(token, tag, Some(C2D::Hello { token: t, name })) <==> t@ == token && tag == 1,
        !is_welcome(token, tag, None),
{
}

/// An output is named after its file, with the extension of the output in place of
/// its own; the names after the first have a number from 2 on. Left out of the second
/// part are names on Windows that begin with a drive of their own.
pub proof fn outputs_are_numbered_from_two(pl: Platform, filename: Seq<char>, n: int)
    ensures
        n < 2 ==> candidate(pl, filename, n) == out_name_of(pl, filename),
        n >= 2 && prefix_len(pl, out_name_of(pl, filename)) == 0 && out_name_of(pl, filename).len()
            > 4 ==> candidate(pl, filename, n) == out_name_of(pl, filename).take(
            out_name_of(pl, filename).len() - 4,
        ) + " ("@ + dec(n) + ").mp4"@,
        out_name_of(pl, filename).skip(out_name_of(pl, filename).len() - 4) == ".mp4"@,
{
    reveal_strlit(".mp4");
    let base = out_name_of(pl, filename);
    let stem = or_output(file_stem_of(pl, or_output(file_name_of(pl, filename))));
    assert(base.skip(base.len() - 4) =~= ".mp4"@);
    assert(base.take(base.len() - 4) =~= stem);
    if n >= 2 && prefix_len(pl, base) == 0 && base.len() > 4 {
        reveal(joined);
        lemma_candidate_is_plain(pl, filename, 1);
        joined_name_is_last(pl, Seq::<char>::empty(), base);
        assert(joined(pl, Seq::<char>::empty(), base) =~= base);
        let k = stem.len() as int;
        assert(base[k] == '.' && base[k + 1] == 'm' && base[k + 2] == 'p' && base[k + 3] == '4');
        assert(base.drop_last().last() == 'p');
        assert(base.drop_last().drop_last().last() == 'm');
        assert(base.drop_last().drop_last().drop_last().last() == '.');
        reveal_with_fuel(crate::path::last_dot, 5);
        assert(crate::path::last_dot(base) == k);
    }
}

/// Cancelling marks one job and leaves every other job as it is.
pub proof fn cancelling_marks_one_job(
    d: DaemonView,
    e: DaemonView,
    client: int,
    job_id: String,
    opened: Opened,
    a: Action,
)
    requires
        handled(d, e, client, C2D::Cancel { job_id }, opened, a),
    ensures
        forall|k: Seq<char>|
            k != job_id@ ==> (#[trigger] e.jobs.contains_key(k) <==> d.jobs.contains_key(k)) && (
            d.jobs.contains_key(k) ==> e.jobs[k] == d.jobs[k]),
        e.jobs.contains_key(job_id@) <==> d.jobs.contains_key(job_id@),
        d.jobs.contains_key(job_id@) ==> ({
            let (j, i) = (d.jobs[job_id@], e.jobs[job_id@]);
            &&& i.client == j.client && i.filename == j.filename && i.size == j.size
            &&& i.local == j.local && i.crop == j.crop && i.codec == j.codec
            &&& i.preset == j.preset && i.bitrate_idx == j.bitrate_idx && i.state == j.state
        }),
        e.token == d.token,
{
}

} // verus!
