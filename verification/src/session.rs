//! A client's session: the slots, the queue of local files, and the jobs that
//! the daemon works on.
use vstd::prelude::*;
use vstd::string::*;
use crate::collections::TextMap;
use crate::encoder::{out_path_of, BuiltJob, Codec, CropMode, StreamSummary, SummaryView};
use crate::number::{dec, print_u64, printing_is_injective};
use crate::path::{file_name, file_name_of, file_stem, join, parent, parent_of, Platform};
use crate::progress::{read_speed, speed_of, Progress, ProgressView};
use crate::proto::{parse_result, result_in, SummaryDto, C2D, D2C, TAG_CTRL, TAG_RESULT};
use crate::server::{crop_number, display_cmd_of, shown_command};
use crate::slot::{idle_slot, Slot, SlotState, SlotView, SLOTS};
use crate::text::{chars_of, concat2, lemma_texts_push, text_eq, texts};

verus! {

/// What a client sends.
pub enum OutMsg {
    Ctrl(C2D),
    Block(u64, Vec<u8>),
}

/// What a frame from the daemon is.
pub enum FromDaemon {
    /// A piece of a job's result.
    Piece { job_id: String, data: Vec<u8> },
    /// A control message in JSON.
    Control,
    /// Nothing that is understood.
    Other,
}

/// Tells what a frame from the daemon is.
pub fn from_daemon(tag: u8, payload: &[u8]) -> (r: FromDaemon)
    ensures
        match r {
            FromDaemon::Piece { job_id, data } => tag == TAG_RESULT && result_in(payload@) == Some(
                (job_id@, data@),
            ),
            FromDaemon::Control => tag == TAG_CTRL,
            FromDaemon::Other => tag != TAG_CTRL && (tag == TAG_RESULT ==> result_in(
                payload@,
            ) is None),
        },
{
    if tag == TAG_CTRL {
        FromDaemon::Control
    } else if tag == TAG_RESULT {
        match parse_result(payload) {
            Some((job_id, bytes)) => {
                let mut data: Vec<u8> = Vec::new();
                data.extend_from_slice(bytes);
                assert(data@ =~= bytes@);
                FromDaemon::Piece { job_id, data }
            },
            None => FromDaemon::Other,
        }
    } else {
        FromDaemon::Other
    }
}

/// Turns a summary from the daemon into one for the slots.
pub fn dto_to_summary(d: SummaryDto) -> (r: StreamSummary)
    requires
        d.wf(),
    ensures
        r.wf(),
        r@ == d@,
{
    StreamSummary {
        duration: d.dur_sec,
        dur_str: d.dur,
        v_codec: d.v_codec,
        v_res: d.v_res,
        v_fps: d.v_fps,
        v_bits: d.v_bits,
        v_fmt: d.v_fmt,
        v_bitrate: d.v_bitrate,
        a_codec: d.a_codec,
        a_layout: d.a_layout,
        a_rate: d.a_rate,
        a_bitrate: d.a_bitrate,
    }
}

/// Where a client saves the result for a file: `<folder>/reencoded/<name>.mp4`.
pub fn client_out_path(pl: Platform, src: &str) -> (r: String)
    ensures
        r@ == out_path_of(pl, src@),
{
    let dir = match parent(pl, src) {
        Some(d) => d,
        None => ".".to_string(),
    };
    let dir = join(pl, dir.as_str(), "reencoded");
    let stem = match file_stem(pl, src) {
        Some(s) => s,
        None => "output".to_string(),
    };
    join(pl, dir.as_str(), concat2(stem.as_str(), ".mp4").as_str())
}

// ---------------------------------------------------------------- slots for jobs
/// Whether some job has the slot `i`.
pub open spec fn is_taken(m: Map<Seq<char>, int>, i: int) -> bool {
    exists|k: Seq<char>| #[trigger] m.contains_key(k) && m[k] == i
}

/// The first slot at or after `i` that no job has.
pub open spec fn free_slot(m: Map<Seq<char>, int>, i: int) -> Option<int>
    decreases SLOTS - i,
{
    if i < 0 || i >= SLOTS {
        None
    } else if !is_taken(m, i) {
        Some(i)
    } else {
        free_slot(m, i + 1)
    }
}

/// The slot for a job: the one it has, or the first that is free.
pub open spec fn slot_for(m: Map<Seq<char>, int>, job: Seq<char>) -> Option<int> {
    if m.contains_key(job) {
        Some(m[job])
    } else {
        free_slot(m, 0)
    }
}

/// The jobs' slots once a job has one, where there was one for it.
pub open spec fn with_slot_for(m: Map<Seq<char>, int>, job: Seq<char>) -> Map<Seq<char>, int> {
    match slot_for(m, job) {
        Some(i) => m.insert(job, i),
        None => m,
    }
}

/// Every job has a slot that exists, and no two have the same.
pub open spec fn slots_distinct(m: Map<Seq<char>, int>) -> bool {
    &&& forall|k: Seq<char>| #[trigger] m.contains_key(k) ==> 0 <= m[k] < SLOTS
    &&& forall|j: Seq<char>, k: Seq<char>|
        #[trigger] m.contains_key(j) && #[trigger] m.contains_key(k) && j != k ==> m[j] != m[k]
}

/// The slots in a map.
pub open spec fn numbers(m: Map<Seq<char>, usize>) -> Map<Seq<char>, int> {
    Map::new(|k: Seq<char>| m.contains_key(k), |k: Seq<char>| m[k] as int)
}

/// The paths in a map.
pub open spec fn paths(m: Map<Seq<char>, String>) -> Map<Seq<char>, Seq<char>> {
    Map::new(|k: Seq<char>| m.contains_key(k), |k: Seq<char>| m[k]@)
}

fn taken(slot_of: &TextMap<usize>, i: usize) -> (r: bool)
    requires
        slot_of.wf(),
    ensures
        r == is_taken(numbers(slot_of@), i as int),
{
    let ks = slot_of.keys();
    let ghost all = slot_of.keys_seq();
    proof {
        slot_of.lemma_keys();
    }
    let mut j: usize = 0;
    while j < ks.len()
        invariant
            j <= ks@.len(),
            slot_of.wf(),
            all == slot_of.keys_seq(),
            texts(ks@) == all,
            all.to_set() == slot_of@.dom(),
            forall|n: int| 0 <= n < j ==> slot_of@[#[trigger] all[n]] != i,
        decreases ks@.len() - j,
    {
        assert(all[j as int] == ks@[j as int]@);
        assert(all.to_set().contains(all[j as int]));
        match slot_of.get(ks[j].as_str()) {
            Some(v) => {
                if *v == i {
                    assert(numbers(slot_of@).contains_key(all[j as int]));
                    return true;
                }
            },
            None => {},
        }
        j += 1;
    }
    assert forall|k: Seq<char>| #[trigger] numbers(slot_of@).contains_key(k) implies numbers(
        slot_of@,
    )[k] != i by {
        assert(all.to_set().contains(k));
        let n = all.index_of(k);
        assert(slot_of@[all[n]] != i);
    }
    false
}

/// Assigns (or returns) a job's slot. None if there's no free slot.
pub fn ensure_slot(slot_of: &mut TextMap<usize>, job_id: &str) -> (r: Option<usize>)
    requires
        old(slot_of).wf(),
    ensures
        final(slot_of).wf(),
        numbers(final(slot_of)@) == with_slot_for(numbers(old(slot_of)@), job_id@),
        match r {
            Some(i) => slot_for(numbers(old(slot_of)@), job_id@) == Some(i as int),
            None => slot_for(numbers(old(slot_of)@), job_id@) is None,
        },
{
    let ghost m = numbers(slot_of@);
    match slot_of.get(job_id) {
        Some(i) => {
            assert(m.insert(job_id@, m[job_id@]) =~= m);
            return Some(*i);
        },
        None => {},
    }
    let mut i: usize = 0;
    while i < SLOTS
        invariant
            i <= SLOTS,
            slot_of.wf(),
            *slot_of == *old(slot_of),
            m == numbers(slot_of@),
            free_slot(m, 0) == free_slot(m, i as int),
            !m.contains_key(job_id@),
        decreases SLOTS - i,
    {
        if !taken(slot_of, i) {
            slot_of.insert(job_id, i);
            assert(numbers(slot_of@) =~= m.insert(job_id@, i as int));
            return Some(i);
        }
        i += 1;
    }
    None
}

// ---------------------------------------------------------------- the session
/// A client's session.
pub struct Session {
    platform: Platform,
    slots: Vec<Slot>,
    live: Vec<bool>,
    queue: Vec<String>,
    target: usize,
    running: bool,
    cancel: bool,
    files: TextMap<String>,
    slot_of: TextMap<usize>,
}

/// The contents of a [`Session`].
pub struct SessionView {
    pub slots: Seq<SlotView>,
    /// The slots in which a local ffmpeg runs.
    pub live: Seq<bool>,
    /// The local files that wait, the next one first.
    pub queue: Seq<Seq<char>>,
    /// How many may be encoded at once.
    pub target: int,
    pub running: bool,
    pub cancel: bool,
    /// The files of the daemon's jobs.
    pub files: Map<Seq<char>, Seq<char>>,
    /// The slots of the daemon's jobs.
    pub slot_of: Map<Seq<char>, int>,
}

/// The contents of some slots.
pub open spec fn slot_views(s: Seq<Slot>) -> Seq<SlotView> {
    Seq::new(s.len(), |i: int| s[i]@)
}

/// A session with another slot in place `i`.
pub open spec fn with_slot(v: SessionView, i: int, s: SlotView) -> SessionView {
    SessionView { slots: v.slots.update(i, s), ..v }
}

/// The name of a job's file, without its folder.
pub open spec fn job_file_name(
    pl: Platform,
    files: Map<Seq<char>, Seq<char>>,
    job: Seq<char>,
) -> Seq<char> {
    if files.contains_key(job) {
        match file_name_of(pl, files[job]) {
            Some(n) => n,
            None => ""@,
        }
    } else {
        ""@
    }
}

/// A slot that shows a job in a state.
pub open spec fn slot_in_state(
    s: SlotView,
    job: Seq<char>,
    name: Seq<char>,
    state: Seq<char>,
    detail: Seq<char>,
) -> SlotView {
    let t = SlotView { job_id: Some(job), name, ..s };
    if state == "probing"@ {
        SlotView { state: SlotState::Running, info: "probing…"@, ..t }
    } else if state == "encoding"@ {
        SlotView { state: SlotState::Running, info: detail, ..t }
    } else if state == "failed"@ {
        SlotView { state: SlotState::Fail((-1) as i32), info: detail, ..t }
    } else {
        t
    }
}

/// The session after the daemon told a job's state.
pub open spec fn after_state(
    pl: Platform,
    v: SessionView,
    job: Seq<char>,
    state: Seq<char>,
    detail: Seq<char>,
) -> SessionView {
    if state == "done"@ || state == "cancelled"@ {
        SessionView {
            slots: if v.slot_of.contains_key(job) {
                v.slots.update(v.slot_of[job], idle_slot())
            } else {
                v.slots
            },
            slot_of: v.slot_of.remove(job),
            files: v.files.remove(job),
            ..v
        }
    } else if state == "queued"@ {
        v
    } else {
        match slot_for(v.slot_of, job) {
            None => v,
            Some(i) => SessionView {
                slots: v.slots.update(
                    i,
                    slot_in_state(
                        v.slots[i],
                        job,
                        job_file_name(pl, v.files, job),
                        state,
                        detail,
                    ),
                ),
                slot_of: if state == "failed"@ {
                    v.slot_of.remove(job)
                } else {
                    v.slot_of.insert(job, i)
                },
                files: if state == "failed"@ {
                    v.files.remove(job)
                } else {
                    v.files
                },
                ..v
            },
        }
    }
}

/// The session after a message from the daemon.
pub open spec fn after_message(pl: Platform, v: SessionView, msg: D2C) -> SessionView {
    match msg {
        D2C::State { job_id, state, detail } => after_state(pl, v, job_id@, state@, detail@),
        D2C::Streams { job_id, source, target, cmd } => if v.slot_of.contains_key(job_id@) {
            let i = v.slot_of[job_id@];
            with_slot(
                v,
                i,
                SlotView {
                    streams: source@,
                    target: target@,
                    cmdline: if cmd@.len() == 0 {
                        v.slots[i].cmdline
                    } else {
                        cmd@
                    },
                    ..v.slots[i]
                },
            )
        } else {
            v
        },
        D2C::Progress {
            job_id,
            frame,
            fps,
            q,
            size,
            time,
            bitrate,
            speed,
            time_sec,
            eta,
            percent,
        } => if v.slot_of.contains_key(job_id@) {
            let i = v.slot_of[job_id@];
            with_slot(
                v,
                i,
                SlotView {
                    progress: Some(
                        ProgressView {
                            frame: frame@,
                            fps: fps@,
                            q: q@,
                            size: size@,
                            time: time@,
                            bitrate: bitrate@,
                            speed: speed@,
                            time_sec: time_sec@,
                            speed_val: speed_of(speed@),
                        },
                    ),
                    ..v.slots[i]
                },
            )
        } else {
            v
        },
        _ => v,
    }
}

/// What the caller is to do about a message from the daemon.
pub enum Reaction {
    Nothing,
    /// Read this part of the file and send it as the block; an empty block where
    /// there is no file.
    SendBlock { req_id: u64, file: Option<String>, offset: u64, len: u32 },
    /// Make the folder and write the job's result to the file from now on.
    OpenResult { job_id: String, dir: Option<String>, path: String },
    /// The job's result is complete.
    CloseResult { job_id: String },
}

/// Whether a reaction is the one to a message.
pub open spec fn reacts(pl: Platform, v: SessionView, msg: D2C, r: Reaction) -> bool {
    match msg {
        D2C::ReadBlock { req_id, job_id, offset, len } => {
            r matches Reaction::SendBlock { req_id: q, file, offset: o, len: l } && q == req_id && o
                == offset && l == len && match file {
                Some(p) => v.files.contains_key(job_id@) && v.files[job_id@] == p@,
                None => !v.files.contains_key(job_id@),
            }
        },
        D2C::ResultBegin { job_id } => if v.files.contains_key(job_id@) {
            r matches Reaction::OpenResult { job_id: j, dir, path } && j@ == job_id@ && path@
                == out_path_of(pl, v.files[job_id@]) && match dir {
                Some(d) => parent_of(pl, path@) == Some(d@),
                None => parent_of(pl, path@) is None,
            }
        } else {
            r is Nothing
        },
        D2C::ResultEnd { job_id, ok } => {
            r matches Reaction::CloseResult { job_id: j } && j@ == job_id@
        },
        _ => r is Nothing,
    }
}

/// Whether the numbers in a message are well formed.
pub open spec fn message_wf(msg: D2C) -> bool {
    match msg {
        D2C::Streams { job_id, source, target, cmd } => source.wf() && target.wf(),
        D2C::Progress { time_sec, .. } => time_sec.wf(),
        _ => true,
    }
}

impl Session {
    pub closed spec fn view(&self) -> SessionView {
        SessionView {
            slots: slot_views(self.slots@),
            live: self.live@,
            queue: texts(self.queue@),
            target: self.target as int,
            running: self.running,
            cancel: self.cancel,
            files: paths(self.files@),
            slot_of: numbers(self.slot_of@),
        }
    }

    /// Whose path notation the session uses.
    pub closed spec fn platform(&self) -> Platform {
        self.platform
    }

    /// There are as many slots as there should be, and no two jobs share one.
    pub closed spec fn wf(&self) -> bool {
        &&& self.slots@.len() == SLOTS
        &&& self.live@.len() == SLOTS
        &&& forall|i: int| 0 <= i < SLOTS ==> (#[trigger] self.slots@[i]).wf()
        &&& self.files.wf()
        &&& self.slot_of.wf()
        &&& slots_distinct(numbers(self.slot_of@))
    }

    /// What holds of every session.
    pub proof fn every_session_has_its_slots(&self)
        requires
            self.wf(),
        ensures
            self@.slots.len() == SLOTS,
            self@.live.len() == SLOTS,
            slots_distinct(self@.slot_of),
    {
    }

    fn put_slot(&mut self, i: usize, s: Slot)
        requires
            old(self).wf(),
            i < SLOTS,
            s.wf(),
        ensures
            final(self).wf(),
            final(self).platform() == old(self).platform(),
            final(self)@ == with_slot(old(self)@, i as int, s@),
    {
        self.slots.set(i, s);
        assert(self@.slots =~= old(self)@.slots.update(i as int, s@));
    }

    fn take_slot(&mut self, i: usize) -> (r: Slot)
        requires
            old(self).wf(),
            i < SLOTS,
        ensures
            final(self).wf(),
            final(self).platform() == old(self).platform(),
            r.wf(),
            r@ == old(self)@.slots[i as int],
            final(self)@ == with_slot(old(self)@, i as int, idle_slot()),
    {
        let mut s = Slot::new();
        self.slots.set_and_swap(i, &mut s);
        assert(self@.slots =~= old(self)@.slots.update(i as int, idle_slot()));
        s
    }

    /// A session in which nothing goes on.
    pub fn new(platform: Platform) -> (r: Session)
        ensures
            r.wf(),
            r.platform() == platform,
            r@ == (SessionView {
                slots: Seq::new(SLOTS as nat, |i: int| idle_slot()),
                live: Seq::new(SLOTS as nat, |i: int| false),
                queue: Seq::empty(),
                target: 1,
                running: false,
                cancel: false,
                files: Map::empty(),
                slot_of: Map::empty(),
            }),
    {
        let mut slots: Vec<Slot> = Vec::new();
        let mut live: Vec<bool> = Vec::new();
        let mut i: usize = 0;
        while i < SLOTS
            invariant
                i <= SLOTS,
                slots@.len() == i,
                live@.len() == i,
                forall|j: int| 0 <= j < i ==> (#[trigger] slots@[j]).wf(),
                forall|j: int| 0 <= j < i ==> (#[trigger] slots@[j])@ == idle_slot(),
                forall|j: int| 0 <= j < i ==> !(#[trigger] live@[j]),
            decreases SLOTS - i,
        {
            slots.push(Slot::new());
            live.push(false);
            i += 1;
        }
        let r = Session {
            platform,
            slots,
            live,
            queue: Vec::new(),
            target: 1,
            running: false,
            cancel: false,
            files: TextMap::new(),
            slot_of: TextMap::new(),
        };
        assert(r@.slots =~= Seq::new(SLOTS as nat, |i: int| idle_slot()));
        assert(r@.live =~= Seq::new(SLOTS as nat, |i: int| false));
        assert(r@.queue =~= Seq::empty());
        assert(r@.files =~= Map::empty());
        assert(r@.slot_of =~= Map::empty());
        r
    }

    fn show_state(&mut self, job_id: &str, state: &str, detail: &str)
        requires
            old(self).wf(),
        ensures
            final(self).wf(),
            final(self).platform() == old(self).platform(),
            final(self)@ == after_state(
                old(self).platform(),
                old(self)@,
                job_id@,
                state@,
                detail@,
            ),
    {
        let ghost v = self@;
        proof {
            reveal_strlit("probing");
            reveal_strlit("encoding");
            reveal_strlit("failed");
            assert("probing"@.len() == 7 && "encoding"@.len() == 8 && "failed"@.len() == 6);
        }
        let fname = match self.files.get(job_id) {
            Some(p) => match file_name(self.platform, p.as_str()) {
                Some(n) => n,
                None => "".to_string(),
            },
            None => "".to_string(),
        };
        assert(fname@ == job_file_name(self.platform, v.files, job_id@));
        if text_eq(state, "done") || text_eq(state, "cancelled") {
            match self.slot_of.remove(job_id) {
                Some(i) => {
                    assert(v.slot_of.contains_key(job_id@) && v.slot_of[job_id@] == i);
                    assert(numbers(self.slot_of@) =~= v.slot_of.remove(job_id@));
                    self.put_slot(i, Slot::new());
                },
                None => {
                    assert(numbers(self.slot_of@) =~= v.slot_of.remove(job_id@));
                },
            }
            let gone = self.files.remove(job_id);
            assert(paths(self.files@) =~= v.files.remove(job_id@));
            assert(self@ =~= after_state(self.platform, v, job_id@, state@, detail@));
        } else if text_eq(state, "queued") {
        } else {
            let ghost m = v.slot_of;
            match ensure_slot(&mut self.slot_of, job_id) {
                None => {},
                Some(i) => {
                    proof {
                        lemma_slot_for(m, job_id@);
                    }
                    let mut s = self.take_slot(i);
                    s.job_id = Some(job_id.to_string());
                    s.name = fname;
                    if text_eq(state, "probing") {
                        s.state = SlotState::Running;
                        s.info = "probing…".to_string();
                    } else if text_eq(state, "encoding") {
                        s.state = SlotState::Running;
                        s.info = detail.to_string();
                    } else if text_eq(state, "failed") {
                        s.state = SlotState::Fail(-1);
                        s.info = detail.to_string();
                        let ghost mid = numbers(self.slot_of@);
                        assert(mid == m.insert(job_id@, i as int));
                        let gone = self.slot_of.remove(job_id);
                        assert(numbers(self.slot_of@) =~= mid.remove(job_id@));
                        assert(mid.remove(job_id@) =~= m.remove(job_id@));
                        let gone = self.files.remove(job_id);
                        assert(paths(self.files@) =~= v.files.remove(job_id@));
                    }
                    let ghost want = slot_in_state(
                        v.slots[i as int],
                        job_id@,
                        job_file_name(self.platform, v.files, job_id@),
                        state@,
                        detail@,
                    );
                    assert(s@ =~= want);
                    self.put_slot(i, s);
                    assert(self@.slots =~= v.slots.update(i as int, want));
                    let ghost w = after_state(self.platform, v, job_id@, state@, detail@);
                    assert(self@.slot_of =~= w.slot_of);
                    assert(self@.files =~= w.files);
                    assert(self@.slots =~= w.slots);
                    assert(self@ =~= w);
                },
            }
        }
    }

    /// Takes in a message from the daemon, and tells what to do about it.
    pub fn on_message(&mut self, msg: D2C) -> (r: Reaction)
        requires
            old(self).wf(),
            message_wf(msg),
        ensures
            final(self).wf(),
            final(self).platform() == old(self).platform(),
            final(self)@ == after_message(old(self).platform(), old(self)@, msg),
            reacts(old(self).platform(), old(self)@, msg, r),
    {
        let ghost v = self@;
        match msg {
            D2C::ReadBlock { req_id, job_id, offset, len } => {
                let file = match self.files.get(job_id.as_str()) {
                    Some(p) => Some(p.clone()),
                    None => None,
                };
                Reaction::SendBlock { req_id, file, offset, len }
            },
            D2C::State { job_id, state, detail } => {
                self.show_state(job_id.as_str(), state.as_str(), detail.as_str());
                Reaction::Nothing
            },
            D2C::Streams { job_id, source, target, cmd } => {
                match self.slot_of.get(job_id.as_str()) {
                    Some(i) => {
                        let i: usize = *i;
                        assert(v.slot_of.contains_key(job_id@) && v.slot_of[job_id@] == i);
                        let mut s = self.take_slot(i);
                        s.streams = dto_to_summary(source);
                        s.target = dto_to_summary(target);
                        if chars_of(cmd.as_str()).len() != 0 {
                            s.cmdline = cmd;
                        }
                        self.put_slot(i, s);
                        assert(self@.slots =~= v.slots.update(i as int, s@));
                    },
                    None => {},
                }
                Reaction::Nothing
            },
            D2C::Progress {
                job_id,
                frame,
                fps,
                q,
                size,
                time,
                bitrate,
                speed,
                time_sec,
                eta,
                percent,
            } => {
                match self.slot_of.get(job_id.as_str()) {
                    Some(i) => {
                        let i: usize = *i;
                        assert(v.slot_of.contains_key(job_id@) && v.slot_of[job_id@] == i);
                        let mut s = self.take_slot(i);
                        let speed_val = read_speed(speed.as_str());
                        s.progress =
                        Some(
                            Progress {
                                frame,
                                fps,
                                q,
                                size,
                                time,
                                bitrate,
                                speed,
                                time_sec,
                                speed_val,
                            },
                        );
                        self.put_slot(i, s);
                        assert(self@.slots =~= v.slots.update(i as int, s@));
                    },
                    None => {},
                }
                Reaction::Nothing
            },
            D2C::ResultBegin { job_id } => {
                let path = match self.files.get(job_id.as_str()) {
                    Some(p) => client_out_path(self.platform, p.as_str()),
                    None => {
                        return Reaction::Nothing;
                    },
                };
                let dir = parent(self.platform, path.as_str());
                Reaction::OpenResult { job_id, dir, path }
            },
            D2C::ResultEnd { job_id, ok } => Reaction::CloseResult { job_id },
            D2C::Welcome { .. } => Reaction::Nothing,
            D2C::Denied { .. } => Reaction::Nothing,
        }
    }
}

// ---------------------------------------------------------------- local files
/// How many of some slots run.
pub open spec fn count_running(s: Seq<SlotView>) -> int
    decreases s.len(),
{
    if s.len() == 0 {
        0
    } else {
        count_running(s.drop_last()) + if s.last().state == SlotState::Running {
            1int
        } else {
            0int
        }
    }
}

/// How many slots have an ffmpeg.
pub open spec fn count_live(l: Seq<bool>) -> int
    decreases l.len(),
{
    if l.len() == 0 {
        0
    } else {
        count_live(l.drop_last()) + if l.last() {
            1int
        } else {
            0int
        }
    }
}

/// The slots that run, in order, among the first `n`.
pub open spec fn running_among(s: Seq<SlotView>, n: int) -> Seq<int>
    decreases n,
{
    if n <= 0 {
        Seq::empty()
    } else if s[n - 1].state == SlotState::Running {
        running_among(s, n - 1).push(n - 1)
    } else {
        running_among(s, n - 1)
    }
}

/// The slots that have an ffmpeg, in order, among the first `n`.
pub open spec fn live_among(l: Seq<bool>, n: int) -> Seq<int>
    decreases n,
{
    if n <= 0 {
        Seq::empty()
    } else if l[n - 1] {
        live_among(l, n - 1).push(n - 1)
    } else {
        live_among(l, n - 1)
    }
}

/// The first slot at or after `i`, below `n`, without an ffmpeg.
pub open spec fn first_idle(l: Seq<bool>, n: int, i: int) -> Option<int>
    decreases n - i,
{
    if i < 0 || i >= n {
        None
    } else if !l[i] {
        Some(i)
    } else {
        first_idle(l, n, i + 1)
    }
}

/// How many files may be encoded at once.
pub open spec fn width_of(target: int) -> int {
    if target < 1 {
        1
    } else if target > SLOTS {
        SLOTS as int
    } else {
        target
    }
}

/// The slot and the file to start now, if any: the first free slot and the first
/// file, where fewer run than may and nothing is being cancelled.
pub open spec fn dispatch_of(v: SessionView) -> Option<(int, Seq<char>)> {
    let n = width_of(v.target);
    if v.cancel || count_live(v.live) >= n || v.queue.len() == 0 {
        None
    } else {
        match first_idle(v.live, n, 0) {
            Some(i) => Some((i, v.queue[0])),
            None => None,
        }
    }
}

/// A slot whose ffmpeg ended with a code.
pub open spec fn reaped(s: SlotView, code: i32) -> SlotView {
    if code == 0 {
        idle_slot()
    } else {
        SlotView { state: SlotState::Fail(code), pid: None, ..s }
    }
}

/// A slot whose file could not be read.
pub open spec fn unreadable_slot(pl: Platform, s: SlotView, file: Seq<char>) -> SlotView {
    SlotView {
        name: match file_name_of(pl, file) {
            Some(n) => n,
            None => "???"@,
        },
        info: "couldn't read (ffprobe)"@,
        cmdline: ""@,
        state: SlotState::Fail((-2) as i32),
        ..s
    }
}

/// A slot in which a job starts.
pub open spec fn prepared_slot(
    s: SlotView,
    program: Seq<char>,
    name: Seq<char>,
    info: Seq<char>,
    args: Seq<Seq<char>>,
    streams: SummaryView,
    target: SummaryView,
) -> SlotView {
    SlotView {
        output: ""@,
        progress: None,
        name,
        info,
        streams,
        target,
        cmdline: shown_command(program, args),
        state: SlotState::Running,
        ..s
    }
}

/// The positions held by a vector.
pub open spec fn places(v: Seq<usize>) -> Seq<int> {
    Seq::new(v.len(), |i: int| v[i] as int)
}

impl Session {
    /// Whether anything is being encoded.
    pub fn is_running(&self) -> (r: bool)
        ensures
            r == self@.running,
    {
        self.running
    }

    /// Notes whether anything is being encoded.
    pub fn set_running(&mut self, on: bool)
        requires
            old(self).wf(),
        ensures
            final(self).wf(),
            final(self).platform() == old(self).platform(),
            final(self)@ == (SessionView { running: on, ..old(self)@ }),
    {
        self.running = on;
    }

    /// Sets how many files may be encoded at once.
    pub fn set_target(&mut self, n: usize)
        requires
            old(self).wf(),
        ensures
            final(self).wf(),
            final(self).platform() == old(self).platform(),
            final(self)@ == (SessionView { target: n as int, ..old(self)@ }),
    {
        self.target = n;
    }

    /// Asks for everything to be cancelled.
    pub fn request_cancel(&mut self)
        requires
            old(self).wf(),
        ensures
            final(self).wf(),
            final(self).platform() == old(self).platform(),
            final(self)@ == (SessionView { cancel: true, ..old(self)@ }),
    {
        self.cancel = true;
    }

    /// A slot.
    pub fn slot(&self, i: usize) -> (r: &Slot)
        requires
            self.wf(),
            i < SLOTS,
        ensures
            r.wf(),
            r@ == self@.slots[i as int],
    {
        &self.slots[i]
    }

    /// How many jobs the daemon still has.
    pub fn job_count(&self) -> (r: usize)
        requires
            self.wf(),
        ensures
            r == self@.files.dom().len(),
    {
        proof {
            assert(paths(self.files@).dom() =~= self.files@.dom());
        }
        self.files.len()
    }

    /// How many files wait.
    pub fn queue_count(&self) -> (r: usize)
        ensures
            r == self@.queue.len(),
    {
        self.queue.len()
    }

    /// The names of the daemon's jobs, oldest first.
    pub closed spec fn job_order(&self) -> Seq<Seq<char>> {
        self.files.keys_seq()
    }

    /// The names of the daemon's jobs, oldest first.
    pub fn job_ids(&self) -> (r: Vec<String>)
        requires
            self.wf(),
        ensures
            texts(r@) == self.job_order(),
            self.job_order().no_duplicates(),
            self.job_order().to_set() == self@.files.dom(),
    {
        proof {
            self.files.lemma_keys();
            assert(paths(self.files@).dom() =~= self.files@.dom());
        }
        self.files.keys()
    }

    /// How many slots run.
    pub fn running_count(&self) -> (r: usize)
        requires
            self.wf(),
        ensures
            r == count_running(self@.slots),
            r <= SLOTS,
    {
        let ghost all = self@.slots;
        let mut n: usize = 0;
        let mut i: usize = 0;
        assert(all.take(0) =~= Seq::empty());
        while i < SLOTS
            invariant
                self.wf(),
                all == self@.slots,
                i <= SLOTS,
                n <= i,
                n == count_running(all.take(i as int)),
            decreases SLOTS - i,
        {
            assert(all.take(i + 1).drop_last() =~= all.take(i as int));
            assert(all.take(i + 1).last() == self.slots@[i as int]@);
            if self.slots[i].state == SlotState::Running {
                n += 1;
            }
            i += 1;
        }
        assert(all.take(SLOTS as int) =~= all);
        n
    }

    fn live_count(&self) -> (r: usize)
        requires
            self.wf(),
        ensures
            r == count_live(self@.live),
    {
        let ghost all = self@.live;
        let mut n: usize = 0;
        let mut i: usize = 0;
        assert(all.take(0) =~= Seq::empty());
        while i < SLOTS
            invariant
                self.wf(),
                all == self@.live,
                i <= SLOTS,
                n <= i,
                n == count_live(all.take(i as int)),
            decreases SLOTS - i,
        {
            assert(all.take(i + 1).drop_last() =~= all.take(i as int));
            if self.live[i] {
                n += 1;
            }
            i += 1;
        }
        assert(all.take(SLOTS as int) =~= all);
        n
    }

    fn reset_slots(&mut self)
        requires
            old(self).wf(),
        ensures
            final(self).wf(),
            final(self).platform() == old(self).platform(),
            final(self)@ == (SessionView {
                slots: Seq::new(SLOTS as nat, |i: int| idle_slot()),
                ..old(self)@
            }),
    {
        let ghost v = self@;
        let mut i: usize = 0;
        while i < SLOTS
            invariant
                self.wf(),
                self.platform() == old(self).platform(),
                i <= SLOTS,
                v == old(self)@,
                self@ == (SessionView { slots: self@.slots, ..v }),
                forall|j: int| 0 <= j < i ==> #[trigger] self@.slots[j] == idle_slot(),
            decreases SLOTS - i,
        {
            self.put_slot(i, Slot::new());
            i += 1;
        }
        assert(self@.slots =~= Seq::new(SLOTS as nat, |i: int| idle_slot()));
    }

    /// Begins to encode local files.
    pub fn begin_local(&mut self, files: &Vec<String>, parallel: usize)
        requires
            old(self).wf(),
        ensures
            final(self).wf(),
            final(self).platform() == old(self).platform(),
            final(self)@ == (SessionView {
                slots: Seq::new(SLOTS as nat, |i: int| idle_slot()),
                queue: texts(files@),
                target: if parallel < 1 {
                    1
                } else {
                    parallel as int
                },
                cancel: false,
                running: true,
                ..old(self)@
            }),
    {
        self.reset_slots();
        let mut q: Vec<String> = Vec::new();
        let ghost all = texts(files@);
        assert(texts(q@) =~= all.take(0));
        let mut i: usize = 0;
        while i < files.len()
            invariant
                i <= files@.len(),
                all == texts(files@),
                texts(q@) == all.take(i as int),
            decreases files@.len() - i,
        {
            let t = files[i].clone();
            proof {
                lemma_texts_push(q@, t);
                assert(all.take(i + 1) =~= all.take(i as int).push(files@[i as int]@));
            }
            q.push(t);
            i += 1;
        }
        assert(all.take(files@.len() as int) =~= all);
        self.queue = q;
        self.target = if parallel < 1 {
            1
        } else {
            parallel
        };
        self.cancel = false;
        self.running = true;
    }

    /// The ffmpeg in a slot ended with a code.
    pub fn reap(&mut self, i: usize, code: i32)
        requires
            old(self).wf(),
            i < SLOTS,
        ensures
            final(self).wf(),
            final(self).platform() == old(self).platform(),
            final(self)@ == (SessionView {
                slots: old(self)@.slots.update(
                    i as int,
                    reaped(old(self)@.slots[i as int], code),
                ),
                live: old(self)@.live.update(i as int, false),
                ..old(self)@
            }),
    {
        let ghost v = self@;
        let mut s = self.take_slot(i);
        if code == 0 {
            s = Slot::new();
        } else {
            s.state = SlotState::Fail(code);
            s.pid = None;
        }
        assert(s@ =~= reaped(v.slots[i as int], code));
        self.put_slot(i, s);
        assert(self@.slots =~= v.slots.update(i as int, reaped(v.slots[i as int], code)));
        self.live.set(i, false);
    }

    /// Where everything is being cancelled, drops the files that wait and gives
    /// the slots whose ffmpeg is to be told to stop.
    pub fn stop_step(&mut self) -> (r: Vec<usize>)
        requires
            old(self).wf(),
        ensures
            final(self).wf(),
            final(self).platform() == old(self).platform(),
            final(self)@ == if old(self)@.cancel {
                SessionView { queue: Seq::empty(), ..old(self)@ }
            } else {
                old(self)@
            },
            places(r@) == if old(self)@.cancel {
                live_among(old(self)@.live, SLOTS as int)
            } else {
                Seq::empty()
            },
            forall|k: int| 0 <= k < r@.len() ==> (#[trigger] r@[k]) < SLOTS,
    {
        let mut r: Vec<usize> = Vec::new();
        if self.cancel {
            self.queue = Vec::new();
            assert(self@.queue =~= Seq::empty());
            let ghost l = self@.live;
            let mut i: usize = 0;
            assert(places(r@) =~= Seq::empty());
            while i < SLOTS
                invariant
                    self.wf(),
                    l == self@.live,
                    i <= SLOTS,
                    places(r@) == live_among(l, i as int),
                    forall|k: int| 0 <= k < r@.len() ==> (#[trigger] r@[k]) < SLOTS,
                decreases SLOTS - i,
            {
                let ghost before = places(r@);
                if self.live[i] {
                    r.push(i);
                    assert(places(r@) =~= before.push(i as int));
                }
                i += 1;
            }
        } else {
            assert(places(r@) =~= Seq::empty());
        }
        r
    }

    /// Takes the next file from the queue for a slot, where one may start.
    pub fn dispatch_next(&mut self) -> (r: Option<(usize, String)>)
        requires
            old(self).wf(),
        ensures
            final(self).wf(),
            final(self).platform() == old(self).platform(),
            match r {
                Some((i, file)) => {
                    &&& i < SLOTS
                    &&& dispatch_of(old(self)@) == Some((i as int, file@))
                    &&& final(self)@ == (SessionView {
                        queue: old(self)@.queue.drop_first(),
                        ..old(self)@
                    })
                },
                None => dispatch_of(old(self)@) is None && final(self)@ == old(self)@,
            },
    {
        let n: usize = if self.target < 1 {
            1
        } else if self.target > SLOTS {
            SLOTS
        } else {
            self.target
        };
        if self.cancel || self.live_count() >= n || self.queue.len() == 0 {
            return None;
        }
        let ghost l = self@.live;
        let mut i: usize = 0;
        while i < n && self.live[i]
            invariant
                self.wf(),
                l == self@.live,
                i <= n <= SLOTS,
                first_idle(l, n as int, 0) == first_idle(l, n as int, i as int),
            decreases n - i,
        {
            i += 1;
        }
        if i == n {
            return None;
        }
        let ghost q = texts(self.queue@);
        let file = self.queue.remove(0);
        assert(texts(self.queue@) =~= q.drop_first());
        assert(q[0] == file@);
        Some((i, file))
    }

    /// The file for a slot could not be read.
    pub fn unreadable(&mut self, i: usize, file: &str)
        requires
            old(self).wf(),
            i < SLOTS,
        ensures
            final(self).wf(),
            final(self).platform() == old(self).platform(),
            final(self)@ == with_slot(
                old(self)@,
                i as int,
                unreadable_slot(old(self).platform(), old(self)@.slots[i as int], file@),
            ),
    {
        let ghost v = self@;
        let mut s = self.take_slot(i);
        s.name =
        match file_name(self.platform, file) {
            Some(n) => n,
            None => "???".to_string(),
        };
        s.info = "couldn't read (ffprobe)".to_string();
        s.cmdline = "".to_string();
        s.state = SlotState::Fail(-2);
        assert(s@ =~= unreadable_slot(self.platform, v.slots[i as int], file@));
        self.put_slot(i, s);
        assert(self@.slots =~= v.slots.update(i as int, s@));
    }

    /// Prepares a slot for a job, and gives the job's arguments back.
    pub fn prepare(&mut self, i: usize, program: &str, built: BuiltJob) -> (r: Vec<String>)
        requires
            old(self).wf(),
            i < SLOTS,
            built.streams.wf(),
            built.target.wf(),
        ensures
            final(self).wf(),
            final(self).platform() == old(self).platform(),
            r == built.args,
            final(self)@ == with_slot(
                old(self)@,
                i as int,
                prepared_slot(
                    old(self)@.slots[i as int],
                    program@,
                    built.name@,
                    built.info@,
                    texts(built.args@),
                    built.streams@,
                    built.target@,
                ),
            ),
    {
        let ghost v = self@;
        let mut s = self.take_slot(i);
        s.output = "".to_string();
        s.progress = None;
        s.cmdline = display_cmd_of(program, &built.args);
        s.name = built.name;
        s.info = built.info;
        s.streams = built.streams;
        s.target = built.target;
        s.state = SlotState::Running;
        self.put_slot(i, s);
        assert(self@.slots =~= v.slots.update(i as int, s@));
        built.args
    }

    /// The ffmpeg of a slot runs.
    pub fn launched(&mut self, i: usize, pid: u32)
        requires
            old(self).wf(),
            i < SLOTS,
        ensures
            final(self).wf(),
            final(self).platform() == old(self).platform(),
            final(self)@ == (SessionView {
                slots: old(self)@.slots.update(
                    i as int,
                    SlotView { pid: Some(pid), ..old(self)@.slots[i as int] },
                ),
                live: old(self)@.live.update(i as int, true),
                ..old(self)@
            }),
    {
        let ghost v = self@;
        let mut s = self.take_slot(i);
        s.pid = Some(pid);
        self.put_slot(i, s);
        assert(self@.slots =~= v.slots.update(i as int, s@));
        self.live.set(i, true);
    }

    /// The ffmpeg of a slot could not be started.
    pub fn launch_failed(&mut self, i: usize, why: &str)
        requires
            old(self).wf(),
            i < SLOTS,
        ensures
            final(self).wf(),
            final(self).platform() == old(self).platform(),
            final(self)@ == with_slot(
                old(self)@,
                i as int,
                SlotView {
                    state: SlotState::Fail((-1) as i32),
                    output: old(self)@.slots[i as int].output + "\n[error launching ffmpeg] "@
                        + why@ + "\n"@,
                    ..old(self)@.slots[i as int]
                },
            ),
    {
        let ghost v = self@;
        let mut s = self.take_slot(i);
        s.state = SlotState::Fail(-1);
        s.output.append("\n[error launching ffmpeg] ");
        s.output.append(why);
        s.output.append("\n");
        self.put_slot(i, s);
        assert(self@.slots =~= v.slots.update(i as int, s@));
    }

    /// Shows what the ffmpeg of a slot wrote.
    pub fn show_output(&mut self, i: usize, output: String, progress: Option<Progress>)
        requires
            old(self).wf(),
            i < SLOTS,
            progress matches Some(p) ==> p.wf(),
        ensures
            final(self).wf(),
            final(self).platform() == old(self).platform(),
            final(self)@ == with_slot(
                old(self)@,
                i as int,
                SlotView {
                    output: output@,
                    progress: match progress {
                        Some(p) => Some(p@),
                        None => old(self)@.slots[i as int].progress,
                    },
                    ..old(self)@.slots[i as int]
                },
            ),
    {
        let ghost v = self@;
        let mut s = self.take_slot(i);
        s.output = output;
        if progress.is_some() {
            s.progress = progress;
        }
        self.put_slot(i, s);
        assert(self@.slots =~= v.slots.update(i as int, s@));
    }

    /// Whether all local files are done with: none waits and none is encoded.
    pub fn is_over(&self) -> (r: bool)
        requires
            self.wf(),
        ensures
            r == (self@.queue.len() == 0 && count_live(self@.live) == 0),
    {
        self.queue.len() == 0 && self.live_count() == 0
    }

    /// Asks for everything to be cancelled, and gives the slots whose ffmpeg is
    /// to be told to stop.
    pub fn send_quit_all(&mut self) -> (r: Vec<usize>)
        requires
            old(self).wf(),
        ensures
            final(self).wf(),
            final(self).platform() == old(self).platform(),
            final(self)@ == (SessionView { cancel: true, ..old(self)@ }),
            places(r@) == running_among(old(self)@.slots, SLOTS as int),
            forall|k: int| 0 <= k < r@.len() ==> (#[trigger] r@[k]) < SLOTS,
    {
        self.cancel = true;
        let mut r: Vec<usize> = Vec::new();
        let ghost s = self@.slots;
        let mut i: usize = 0;
        assert(places(r@) =~= Seq::empty());
        while i < SLOTS
            invariant
                self.wf(),
                s == self@.slots,
                i <= SLOTS,
                places(r@) == running_among(s, i as int),
                forall|k: int| 0 <= k < r@.len() ==> (#[trigger] r@[k]) < SLOTS,
            decreases SLOTS - i,
        {
            let ghost before = places(r@);
            assert(s[i as int] == self.slots@[i as int]@);
            if self.slots[i].state == SlotState::Running {
                r.push(i);
                assert(places(r@) =~= before.push(i as int));
            }
            i += 1;
        }
        r
    }
}

// ---------------------------------------------------------------- jobs for the daemon
/// The name of the job with a number.
pub open spec fn job_name(n: int) -> Seq<char> {
    "j"@ + dec(n)
}

/// The files of the first `n` jobs, numbered from `first` on.
pub open spec fn files_for(fs: Seq<Seq<char>>, first: int, n: int) -> Map<Seq<char>, Seq<char>>
    decreases n,
{
    if n <= 0 {
        Map::empty()
    } else {
        files_for(fs, first, n - 1).insert(job_name(first + n - 1), fs[n - 1])
    }
}

/// What a job is to be like.
pub struct JobSettings {
    pub crop: CropMode,
    pub codec: Codec,
    pub preset: String,
    pub bitrate_idx: usize,
}

/// Whether a message submits a file as a job.
pub open spec fn submits(
    pl: Platform,
    m: C2D,
    n: int,
    file: Seq<char>,
    size: u64,
    set: JobSettings,
) -> bool {
    m matches C2D::Submit {
        job_id,
        filename,
        size: sz,
        crop,
        codec,
        preset,
        bitrate_idx,
        local_path,
    } && job_id@ == job_name(n) && filename@ == (match file_name_of(pl, file) {
        Some(f) => f,
        None => "file"@,
    }) && sz == size && crop == (match set.crop {
        CropMode::Centered => 1u8,
        CropMode::OneThird => 2u8,
        CropMode::NoCrop => 3u8,
    }) && codec@ == set.codec.spec_label() && preset@ == set.preset@ && bitrate_idx
        == set.bitrate_idx && local_path is None
}

impl Session {
    /// Forgets all jobs and clears the slots.
    pub fn clear_jobs(&mut self)
        requires
            old(self).wf(),
        ensures
            final(self).wf(),
            final(self).platform() == old(self).platform(),
            final(self)@ == (SessionView {
                slots: Seq::new(SLOTS as nat, |i: int| idle_slot()),
                files: Map::empty(),
                slot_of: Map::empty(),
                ..old(self)@
            }),
    {
        self.reset_slots();
        self.slot_of.clear();
        self.files.clear();
        assert(self@.files =~= Map::empty());
        assert(self@.slot_of =~= Map::empty());
    }

    /// Submits files to the daemon as jobs numbered from `first` on. The messages
    /// say how many may run at once, and then describe each job.
    pub fn submit(
        &mut self,
        files: &Vec<String>,
        sizes: &Vec<u64>,
        first: u64,
        parallel: usize,
        set: &JobSettings,
    ) -> (r: Vec<C2D>)
        requires
            old(self).wf(),
            files@.len() == sizes@.len(),
            first + files@.len() <= u64::MAX,
        ensures
            final(self).wf(),
            final(self).platform() == old(self).platform(),
            final(self)@ == (SessionView {
                slots: Seq::new(SLOTS as nat, |i: int| idle_slot()),
                files: files_for(texts(files@), first as int, files@.len() as int),
                slot_of: Map::empty(),
                running: true,
                ..old(self)@
            }),
            r@.len() == files@.len() + 1,
            r@[0] matches C2D::SetParallel { n } && n == (if parallel < 1 {
                1
            } else {
                parallel
            }),
            forall|k: int|
                0 <= k < files@.len() ==> submits(
                    old(self).platform(),
                    #[trigger] r@[k + 1],
                    first + k,
                    files@[k]@,
                    sizes@[k],
                    *set,
                ),
    {
        self.clear_jobs();
        let ghost v = self@;
        let mut r: Vec<C2D> = Vec::new();
        r.push(
            C2D::SetParallel {
                n: if parallel < 1 {
                    1
                } else {
                    parallel
                },
            },
        );
        let ghost fs = texts(files@);
        let ghost pl = self.platform();
        let mut k: usize = 0;
        while k < files.len()
            invariant
                self.wf(),
                self.platform() == pl,
                k <= files@.len() == sizes@.len(),
                first + files@.len() <= u64::MAX,
                fs == texts(files@),
                self@ == (SessionView { files: files_for(fs, first as int, k as int), ..v }),
                r@.len() == k + 1,
                r@[0] matches C2D::SetParallel { n } && n == (if parallel < 1 {
                    1
                } else {
                    parallel
                }),
                forall|j: int|
                    0 <= j < k ==> submits(
                        pl,
                        #[trigger] r@[j + 1],
                        first + j,
                        files@[j]@,
                        sizes@[j],
                        *set,
                    ),
            decreases files@.len() - k,
        {
            let job_id = concat2("j", print_u64(first + k as u64).as_str());
            let filename = match file_name(self.platform, files[k].as_str()) {
                Some(f) => f,
                None => "file".to_string(),
            };
            let ghost before = self@.files;
            self.files.insert(job_id.as_str(), files[k].clone());
            assert(self@.files =~= before.insert(job_id@, files@[k as int]@));
            assert(fs[k as int] == files@[k as int]@);
            let ghost sent = r@;
            r.push(
                C2D::Submit {
                    job_id,
                    filename,
                    size: sizes[k],
                    crop: crop_number(set.crop),
                    codec: set.codec.label().to_string(),
                    preset: set.preset.clone(),
                    bitrate_idx: set.bitrate_idx,
                    local_path: None,
                },
            );
            assert forall|j: int| 0 <= j < k + 1 implies submits(
                pl,
                #[trigger] r@[j + 1],
                first + j,
                files@[j]@,
                sizes@[j],
                *set,
            ) by {
                if j < k {
                    assert(r@[j + 1] == sent[j + 1]);
                }
            }
            k += 1;
        }
        self.running = true;
        r
    }
}

// ---------------------------------------------------------------- laws
proof fn lemma_free_slot(m: Map<Seq<char>, int>, i: int)
    requires
        0 <= i,
    ensures
        free_slot(m, i) matches Some(k) ==> i <= k < SLOTS && !is_taken(m, k),
    decreases SLOTS - i,
{
    if i < SLOTS && is_taken(m, i) {
        lemma_free_slot(m, i + 1);
    }
}

/// Giving a job a slot keeps every job in a slot of its own.
pub proof fn lemma_slot_for(m: Map<Seq<char>, int>, job: Seq<char>)
    requires
        slots_distinct(m),
    ensures
        slots_distinct(with_slot_for(m, job)),
        slots_distinct(m.remove(job)),
        slot_for(m, job) matches Some(i) ==> 0 <= i < SLOTS,
{
    lemma_free_slot(m, 0);
}

/// A job's slot is its own: the daemon's messages never put two jobs in one.
pub proof fn messages_keep_slots_distinct(pl: Platform, v: SessionView, msg: D2C)
    requires
        slots_distinct(v.slot_of),
    ensures
        slots_distinct(after_message(pl, v, msg).slot_of),
{
    if let D2C::State { job_id, state, detail } = msg {
        lemma_slot_for(v.slot_of, job_id@);
    }
}

/// A job that is done, cancelled or failed holds neither a slot nor a file any
/// more, where it had a slot or there was one for it.
pub proof fn ended_jobs_are_forgotten(
    pl: Platform,
    v: SessionView,
    job: Seq<char>,
    state: Seq<char>,
    detail: Seq<char>,
)
    requires
        state == "done"@ || state == "cancelled"@ || (state == "failed"@ && slot_for(
            v.slot_of,
            job,
        ) is Some),
    ensures
        !after_state(pl, v, job, state, detail).slot_of.contains_key(job),
        !after_state(pl, v, job, state, detail).files.contains_key(job),
{
    reveal_strlit("queued");
    reveal_strlit("failed");
    assert("queued"@[0] == 'q' && "failed"@[0] == 'f');
}

/// A job is told apart from the others: a message about it leaves the slots of
/// the others alone.
pub proof fn other_slots_are_left_alone(
    pl: Platform,
    v: SessionView,
    msg: D2C,
    job: Seq<char>,
    other: Seq<char>,
)
    requires
        slots_distinct(v.slot_of),
        v.slots.len() == SLOTS,
        v.slot_of.contains_key(other),
        other != job,
        match msg {
            D2C::State { job_id, .. } => job_id@ == job,
            D2C::Streams { job_id, .. } => job_id@ == job,
            D2C::Progress { job_id, .. } => job_id@ == job,
            _ => true,
        },
    ensures
        after_message(pl, v, msg).slot_of.contains_key(other),
        after_message(pl, v, msg).slot_of[other] == v.slot_of[other],
        after_message(pl, v, msg).slots[v.slot_of[other]] == v.slots[v.slot_of[other]],
{
    lemma_slot_for(v.slot_of, job);
    lemma_free_slot(v.slot_of, 0);
}

proof fn lemma_first_idle(l: Seq<bool>, n: int, i: int)
    requires
        0 <= i,
        n <= l.len(),
    ensures
        first_idle(l, n, i) matches Some(k) ==> i <= k < n && !l[k],
    decreases n - i,
{
    if i < n && l[i] {
        lemma_first_idle(l, n, i + 1);
    }
}

proof fn lemma_count_live_update(l: Seq<bool>, i: int)
    requires
        0 <= i < l.len(),
        !l[i],
    ensures
        count_live(l.update(i, true)) == count_live(l) + 1,
    decreases l.len(),
{
    let u = l.update(i, true);
    if i == l.len() - 1 {
        assert(u.drop_last() =~= l.drop_last());
    } else {
        assert(u.drop_last() =~= l.drop_last().update(i, true));
        lemma_count_live_update(l.drop_last(), i);
    }
}

/// Starting what may start never lets more run than may, and it starts in a slot
/// that is free.
pub proof fn width_is_respected(v: SessionView, i: int, file: Seq<char>)
    requires
        v.live.len() == SLOTS,
        dispatch_of(v) == Some((i, file)),
    ensures
        !v.cancel,
        0 <= i < width_of(v.target),
        !v.live[i],
        file == v.queue[0],
        count_live(v.live.update(i, true)) <= width_of(v.target),
{
    lemma_first_idle(v.live, width_of(v.target), 0);
    lemma_count_live_update(v.live, i);
}

/// Each job that is submitted has its own name, and under that name its own file.
pub proof fn jobs_have_their_files(fs: Seq<Seq<char>>, first: int, n: int, k: int)
    requires
        0 <= first,
        0 <= k < n <= fs.len(),
    ensures
        files_for(fs, first, n).contains_key(job_name(first + k)),
        files_for(fs, first, n)[job_name(first + k)] == fs[k],
    decreases n,
{
    if k < n - 1 {
        jobs_have_their_files(fs, first, n - 1, k);
        if job_name(first + k) == job_name(first + n - 1) {
            job_names_differ(first + k, first + n - 1);
        }
    }
}

/// Jobs with different numbers have different names.
pub proof fn job_names_differ(m: int, n: int)
    requires
        0 <= m,
        0 <= n,
        job_name(m) == job_name(n),
    ensures
        m == n,
{
    reveal_strlit("j");
    assert(dec(m) =~= job_name(m).skip(1));
    assert(dec(n) =~= job_name(n).skip(1));
    printing_is_injective(m, n);
}

proof fn lemma_slot_is_first_free(m: Map<Seq<char>, int>, i: int)
    requires
        0 <= i,
    ensures
        match free_slot(m, i) {
            Some(k) => i <= k < SLOTS && !is_taken(m, k) && forall|j: int|
                i <= j < k ==> #[trigger] is_taken(m, j),
            None => forall|j: int| i <= j < SLOTS ==> #[trigger] is_taken(m, j),
        },
    decreases SLOTS - i,
{
    if i < SLOTS && is_taken(m, i) {
        lemma_slot_is_first_free(m, i + 1);
    }
}

/// Whether one of the jobs has the slot `i`.
pub open spec fn some_job_has(m: Map<Seq<char>, int>, i: int) -> bool {
    exists|j: Seq<char>| m.dom().contains(j) && #[trigger] m[j] == i
}

/// A job that has a slot keeps it; a new one gets the first that no job has, and none
/// where all four are taken.
pub proof fn job_gets_the_first_free_slot(m: Map<Seq<char>, int>, job: Seq<char>)
    ensures
        m.contains_key(job) ==> slot_for(m, job) == Some(m[job]),
        !m.contains_key(job) ==> match slot_for(m, job) {
            Some(k) => {
                &&& 0 <= k < 4
                &&& forall|j: Seq<char>| #[trigger] m.contains_key(j) ==> m[j] != k
                &&& forall|i: int| 0 <= i < k ==> #[trigger] some_job_has(m, i)
                &&& with_slot_for(m, job) == m.insert(job, k)
            },
            None => {
                &&& forall|i: int| 0 <= i < 4 ==> #[trigger] some_job_has(m, i)
                &&& with_slot_for(m, job) == m
            },
        },
{
    lemma_slot_is_first_free(m, 0);
    if !m.contains_key(job) {
        let top = match slot_for(m, job) {
            Some(k) => k,
            None => 4,
        };
        assert forall|i: int| 0 <= i < top implies #[trigger] some_job_has(m, i) by {
            assert(is_taken(m, i));
            let j = choose|j: Seq<char>| #[trigger] m.contains_key(j) && m[j] == i;
            assert(m.dom().contains(j) && m[j] == i);
        }
        if let Some(k) = slot_for(m, job) {
            assert forall|j: Seq<char>| #[trigger] m.contains_key(j) implies m[j] != k by {
                assert(!is_taken(m, k));
            }
        }
    }
}

/// A slot shows the state of its job: that it is probed, what it is encoded to, or why
/// it failed. A job that waits changes nothing, and one that is done or cancelled
/// leaves its slot as if it had never been there.
pub proof fn slot_shows_the_state_of_its_job(
    pl: Platform,
    v: SessionView,
    job: Seq<char>,
    detail: Seq<char>,
)
    requires
        v.slot_of.contains_key(job),
        0 <= v.slot_of[job] < v.slots.len(),
        v.files.contains_key(job),
        file_name_of(pl, v.files[job]) is Some,
    ensures
        ({
            let i = v.slot_of[job];
            let name = file_name_of(pl, v.files[job])->0;
            let probing = after_state(pl, v, job, "probing"@, detail);
            let encoding = after_state(pl, v, job, "encoding"@, detail);
            let failed = after_state(pl, v, job, "failed"@, detail);
            let done = after_state(pl, v, job, "done"@, detail);
            let cancelled = after_state(pl, v, job, "cancelled"@, detail);
            &&& probing.slots[i].state == SlotState::Running && probing.slots[i].info
                == "probing…"@ && probing.slots[i].name == name && probing.slots[i].job_id == Some(
                job,
            )
            &&& encoding.slots[i].state == SlotState::Running && encoding.slots[i].info == detail
                && encoding.slots[i].name == name && encoding.slots[i].job_id == Some(job)
            &&& failed.slots[i].state == SlotState::Fail(-1i32) && failed.slots[i].info == detail
                && failed.slots[i].name == name
            &&& done.slots[i] == idle_slot() && cancelled.slots[i] == idle_slot()
            &&& after_state(pl, v, job, "queued"@, detail) == v
            &&& probing.slot_of[job] == i && encoding.slot_of[job] == i
            &&& probing.files == v.files && encoding.files == v.files
            &&& done.files == v.files.remove(job) && failed.files == v.files.remove(job)
            &&& done.slot_of == v.slot_of.remove(job) && failed.slot_of == v.slot_of.remove(job)
            &&& encoding.slots[i].output == v.slots[i].output && encoding.slots[i].progress
                == v.slots[i].progress && encoding.slots[i].streams == v.slots[i].streams
        }),
{
    reveal_strlit("probing");
    reveal_strlit("encoding");
    reveal_strlit("failed");
    reveal_strlit("done");
    reveal_strlit("cancelled");
    reveal_strlit("queued");
    assert("probing"@[0] == 'p' && "encoding"@[0] == 'e' && "failed"@[0] == 'f' && "done"@[0] == 'd'
        && "cancelled"@[0] == 'c' && "queued"@[0] == 'q');
    assert(v.slot_of.insert(job, v.slot_of[job])[job] == v.slot_of[job]);
}

/// What the daemon tells of a job is shown in the job's slot: its streams, its command
/// where one is told, and how far it is. What it tells of a job without a slot changes
/// nothing.
pub proof fn daemon_tells_are_shown(pl: Platform, v: SessionView, msg: D2C)
    requires
        forall|k: Seq<char>| #[trigger] v.slot_of.contains_key(k) ==> 0 <= v.slot_of[k]
            < v.slots.len(),
    ensures
        ({
            let e = after_message(pl, v, msg);
            match msg {
                D2C::Streams { job_id, source, target, cmd } => if v.slot_of.contains_key(job_id@) {
                    let s = e.slots[v.slot_of[job_id@]];
                    let old_s = v.slots[v.slot_of[job_id@]];
                    &&& s.streams == source@
                    &&& s.target == target@
                    &&& cmd@.len() > 0 ==> s.cmdline == cmd@
                    &&& cmd@.len() == 0 ==> s.cmdline == old_s.cmdline
                    &&& s.state == old_s.state && s.name == old_s.name && s.progress
                        == old_s.progress
                } else {
                    e == v
                },
                D2C::Progress {
                    job_id,
                    frame,
                    fps,
                    q,
                    size,
                    time,
                    bitrate,
                    speed,
                    time_sec,
                    eta,
                    percent,
                } => if v.slot_of.contains_key(job_id@) {
                    let s = e.slots[v.slot_of[job_id@]];
                    let old_s = v.slots[v.slot_of[job_id@]];
                    &&& s.progress matches Some(p) && p.frame == frame@ && p.fps == fps@ && p.q
                        == q@ && p.size == size@ && p.time == time@ && p.bitrate == bitrate@
                        && p.speed == speed@ && p.time_sec == time_sec@ && p.speed_val == speed_of(
                        speed@,
                    )
                    &&& s.state == old_s.state && s.name == old_s.name && s.streams
                        == old_s.streams && s.info == old_s.info
                } else {
                    e == v
                },
                D2C::Welcome { .. } => e == v,
                D2C::Denied { .. } => e == v,
                D2C::ReadBlock { .. } => e == v,
                D2C::ResultBegin { .. } => e == v,
                D2C::ResultEnd { .. } => e == v,
                _ => true,
            }
        }),
{
}

/// A client answers a request for a block with that part of the job's own file, and
/// saves a result beside it; of a job that it does not have it saves nothing.
pub proof fn client_serves_its_own_files(pl: Platform, v: SessionView, msg: D2C, r: Reaction)
    requires
        reacts(pl, v, msg, r),
    ensures
        msg matches D2C::ReadBlock { req_id, job_id, offset, len } ==> {
            &&& r matches Reaction::SendBlock { req_id: q, offset: o, len: l, .. } && q == req_id
                && o == offset && l == len
            &&& v.files.contains_key(job_id@) ==> (r matches Reaction::SendBlock { file: Some(f), .. }
                && f@ == v.files[job_id@])
            &&& !v.files.contains_key(job_id@) ==> (r matches Reaction::SendBlock { file: None, .. })
        },
        msg matches D2C::ResultBegin { job_id } ==> {
            &&& v.files.contains_key(job_id@) ==> (r matches Reaction::OpenResult {
                job_id: j,
                path,
                ..
            } && j@ == job_id@ && path@ == out_path_of(pl, v.files[job_id@]))
            &&& !v.files.contains_key(job_id@) ==> r is Nothing
        },
        msg matches D2C::ResultEnd { job_id, .. } ==> (r matches Reaction::CloseResult {
            job_id: j,
        } && j@ == job_id@),
        msg is State || msg is Streams || msg is Progress || msg is Welcome || msg is Denied ==> r
            is Nothing,
{
}

proof fn lemma_slot_is_first_idle(l: Seq<bool>, n: int, i: int)
    requires
        0 <= i,
        n <= l.len(),
    ensures
        match first_idle(l, n, i) {
            Some(k) => i <= k < n && !l[k] && forall|j: int| i <= j < k ==> #[trigger] l[j],
            None => forall|j: int| i <= j < n ==> #[trigger] l[j],
        },
    decreases n - i,
{
    if i < n && l[i] {
        lemma_slot_is_first_idle(l, n, i + 1);
    }
}

/// The next file starts in the first slot that is free, as long as fewer run than
/// were asked for; between one and four can run.
pub proof fn next_file_starts_in_the_first_free_slot(v: SessionView)
    requires
        v.live.len() == 4,
    ensures
        ({
            let n = if v.target <= 1 {
                1int
            } else if v.target >= 4 {
                4
            } else {
                v.target
            };
            match dispatch_of(v) {
                Some((i, file)) => {
                    &&& !v.cancel
                    &&& count_live(v.live) < n
                    &&& 0 <= i < n
                    &&& !v.live[i]
                    &&& forall|j: int| 0 <= j < i ==> #[trigger] v.live[j]
                    &&& file == v.queue[0]
                },
                None => v.cancel || v.queue.len() == 0 || count_live(v.live) >= n || (forall|j: int|
                    0 <= j < n ==> #[trigger] v.live[j]),
            }
        }),
{
    lemma_slot_is_first_idle(v.live, width_of(v.target), 0);
}

/// What runs is counted one by one.
pub proof fn running_slots_are_counted(s: Seq<SlotView>, t: SlotView, l: Seq<bool>, b: bool)
    ensures
        count_running(s.push(t)) == count_running(s) + if t.state == SlotState::Running {
            1int
        } else {
            0
        },
        count_running(Seq::<SlotView>::empty()) == 0,
        count_live(l.push(b)) == count_live(l) + if b {
            1int
        } else {
            0
        },
        count_live(Seq::<bool>::empty()) == 0,
{
    assert(s.push(t).drop_last() =~= s);
    assert(l.push(b).drop_last() =~= l);
}

/// The slots that are to be stopped are those that run, each once and in order.
pub proof fn slots_to_stop_are_those_that_run(s: Seq<SlotView>, l: Seq<bool>, n: int, i: int)
    requires
        0 <= n <= s.len(),
        n <= l.len(),
    ensures
        running_among(s, n).contains(i) <==> 0 <= i < n && s[i].state == SlotState::Running,
        live_among(l, n).contains(i) <==> 0 <= i < n && l[i],
        forall|j: int, k: int|
            0 <= j < k < running_among(s, n).len() ==> running_among(s, n)[j] < running_among(
                s,
                n,
            )[k],
        forall|j: int, k: int|
            0 <= j < k < live_among(l, n).len() ==> live_among(l, n)[j] < live_among(l, n)[k],
    decreases n,
{
    if n > 0 {
        slots_to_stop_are_those_that_run(s, l, n - 1, i);
        let (a, b) = (running_among(s, n - 1), live_among(l, n - 1));
        assert forall|k: int| 0 <= k < a.len() implies a[k] < n - 1 by {
            slots_to_stop_are_those_that_run(s, l, n - 1, a[k]);
            assert(a.contains(a[k]));
        }
        assert forall|k: int| 0 <= k < b.len() implies b[k] < n - 1 by {
            slots_to_stop_are_those_that_run(s, l, n - 1, b[k]);
            assert(b.contains(b[k]));
        }
        lemma_push_contains(a, n - 1, i);
        lemma_push_contains(b, n - 1, i);
    }
}

proof fn lemma_push_contains(a: Seq<int>, x: int, i: int)
    ensures
        a.push(x).contains(i) <==> a.contains(i) || i == x,
{
    let b = a.push(x);
    if a.contains(i) {
        let k = choose|k: int| 0 <= k < a.len() && a[k] == i;
        assert(b[k] == i);
    }
    if i == x {
        assert(b[a.len() as int] == i);
    }
    if b.contains(i) && i != x {
        let k = choose|k: int| 0 <= k < b.len() && b[k] == i;
        assert(a[k] == i);
    }
}

/// A slot whose ffmpeg ended well is idle again; one whose ffmpeg failed shows the
/// code and keeps the rest; one whose file could not be read says so.
pub proof fn ended_slot_shows_how(pl: Platform, s: SlotView, code: i32, file: Seq<char>)
    ensures
        code == 0 ==> reaped(s, code) == idle_slot(),
        code != 0 ==> reaped(s, code).state == SlotState::Fail(code) && reaped(s, code).pid is None
            && reaped(s, code).output == s.output && reaped(s, code).name == s.name && reaped(
            s,
            code,
        ).info == s.info,
        unreadable_slot(pl, s, file).state == SlotState::Fail(-2i32),
        unreadable_slot(pl, s, file).info == "couldn't read (ffprobe)"@,
        unreadable_slot(pl, s, file).cmdline == ""@,
        file_name_of(pl, file) matches Some(n) ==> unreadable_slot(pl, s, file).name == n,
{
}

/// A slot in which a job starts shows the job and forgets what the last one wrote.
pub proof fn started_slot_shows_its_job(
    s: SlotView,
    program: Seq<char>,
    name: Seq<char>,
    info: Seq<char>,
    args: Seq<Seq<char>>,
    streams: SummaryView,
    target: SummaryView,
)
    ensures
        ({
            let t = prepared_slot(s, program, name, info, args, streams, target);
            &&& t.state == SlotState::Running
            &&& t.name == name && t.info == info && t.streams == streams && t.target == target
            &&& t.output == ""@ && t.progress is None
            &&& t.cmdline == shown_command(program, args)
        }),
{
}

/// A submission says of a job what the client was set to: the number of its crop, the
/// name of its codec, and the last name of its file.
pub proof fn submission_says_what_was_set(
    pl: Platform,
    m: C2D,
    n: int,
    file: Seq<char>,
    size: u64,
    set: JobSettings,
)
    requires
        submits(pl, m, n, file, size, set),
    ensures
        m matches C2D::Submit {
            job_id,
            filename,
            size: s,
            crop,
            codec,
            preset,
            bitrate_idx,
            local_path,
        } && job_id@ == "j"@ + dec(n) && (file_name_of(pl, file) matches Some(f) ==> filename@ == f)
            && s == size && (crop == 1 <==> set.crop == CropMode::Centered) && (crop == 2
            <==> set.crop == CropMode::OneThird) && (crop == 3 <==> set.crop == CropMode::NoCrop)
            && (codec@ == "H264"@ <==> set.codec == Codec::H264) && (codec@ == "H265"@ <==> set.codec
            == Codec::H265) && (codec@ == "AV1"@ <==> set.codec == Codec::Av1) && preset@
            == set.preset@ && bitrate_idx == set.bitrate_idx && local_path is None,
{
    crate::encoder::codecs_have_their_names(set.codec);
}

} // verus!
