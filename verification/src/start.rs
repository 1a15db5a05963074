//! Starting the terminal client, and starting to encode with it.
use vstd::prelude::*;
use vstd::string::*;
use crate::app::{
    add_effect, all_saved, codec_at, codec_of, effects_of, no_effects, preset_name, preset_of_idx,
    save, App, AppView, Effect, EffectView, Focus, Mode,
};
use crate::collections::{toggled, TextSet};
use crate::encoder::{ffprobe_from_ffmpeg, ffprobe_name, Codec, CropMode};
use crate::path::{
    form, home, home_is_kept, is_plain_name, is_verbatim, joined, joined_name_is_last,
    lemma_parent_is_shorter, parent, parent_is_tidy, parent_of, plain_form, prefix_len, takes_names,
    Platform,
};
use crate::proto::{C2D, D2C};
use crate::server::{rates, rates_of};
use crate::session::{
    count_running, files_for, submits, JobSettings, Session, SessionView,
};
use crate::slot::{idle_slot, SLOTS};
use crate::text::{
    chars_of, concat2, concat3, cut_end, cut_start, string_of, text_eq, text_in, texts, trim,
    trim_chars, trim_end_of, trim_start_of,
};

verus! {

// ---------------------------------------------------------------- the program starts
/// The settings that were kept, as far as there are any.
pub struct Kept {
    pub mode: Option<String>,
    pub ffmpeg: Option<String>,
    pub daemon_addr: Option<String>,
    pub token: Option<String>,
    pub codec: Option<String>,
}

/// A kept text, or another.
pub open spec fn kept_or(s: Option<String>, other: Seq<char>) -> Seq<char> {
    match s {
        Some(s) => s@,
        None => other,
    }
}

/// The position of the codec with a name; AV1's where there is none.
pub open spec fn codec_index(s: Option<Seq<char>>) -> int {
    if s == Some("H264"@) {
        0
    } else if s == Some("H265"@) {
        1
    } else {
        2
    }
}

/// The state in which the client starts.
pub open spec fn initial(
    pl: Platform,
    src_dir: Seq<char>,
    default_ffmpeg: Seq<char>,
    preset_idx: int,
    kept: Kept,
) -> AppView {
    AppView {
        platform: pl,
        mode: if text_in(kept.mode) == Some("daemon"@) {
            Mode::Daemon
        } else {
            Mode::Local
        },
        ffmpeg: kept_or(kept.ffmpeg, default_ffmpeg),
        daemon_addr: kept_or(kept.daemon_addr, "127.0.0.1:7878"@),
        token: kept_or(kept.token, "changeme"@),
        src_dir,
        crop: CropMode::NoCrop,
        parallel: 1,
        preset_idx,
        bitrate_idx: 2,
        codec_idx: codec_index(text_in(kept.codec)),
        connected: false,
        job_counter: 0,
        files: Seq::empty(),
        excluded: Set::empty(),
        excluded_dirs: Set::empty(),
        selected_tab: 0,
        status_msg: ""@,
        needs_scan: true,
        hover: None,
        focus: Focus::Nowhere,
        edit_cursor: 0,
        cmd_scroll: 0,
        explorer: None,
        confirm_exit: false,
        closing: false,
        should_quit: false,
    }
}

fn or_else(s: Option<String>, other: &str) -> (r: String)
    ensures
        r@ == kept_or(s, other@),
{
    match s {
        Some(s) => s,
        None => other.to_string(),
    }
}

/// The position of the codec with a name.
pub fn codec_position(s: &Option<String>) -> (r: usize)
    ensures
        r == codec_index(text_in(*s)),
        r < 3,
{
    match s {
        Some(s) => {
            if text_eq(s.as_str(), "H264") {
                0
            } else if text_eq(s.as_str(), "H265") {
                1
            } else {
                2
            }
        },
        None => 2,
    }
}

impl App {
    /// The client at its start, in a folder, with the settings that were kept.
    pub fn new(
        pl: Platform,
        src_dir: &str,
        default_ffmpeg: &str,
        preset_idx: usize,
        kept: Kept,
    ) -> (r: App)
        requires
            preset_idx < 7,
        ensures
            r.wf(),
            r@ == initial(pl, src_dir@, default_ffmpeg@, preset_idx as int, kept),
    {
        let codec_idx = codec_position(&kept.codec);
        let daemon = match &kept.mode {
            Some(m) => text_eq(m.as_str(), "daemon"),
            None => false,
        };
        let r = App {
            platform: pl,
            mode: if daemon {
                Mode::Daemon
            } else {
                Mode::Local
            },
            ffmpeg: or_else(kept.ffmpeg, default_ffmpeg),
            daemon_addr: or_else(kept.daemon_addr, "127.0.0.1:7878"),
            token: or_else(kept.token, "changeme"),
            src_dir: src_dir.to_string(),
            crop: CropMode::NoCrop,
            parallel: 1,
            preset_idx,
            bitrate_idx: 2,
            codec_idx,
            connected: false,
            job_counter: 0,
            files: Vec::new(),
            excluded: TextSet::new(),
            excluded_dirs: TextSet::new(),
            selected_tab: 0,
            status_msg: "".to_string(),
            needs_scan: true,
            hover: None,
            focus: Focus::Nowhere,
            edit_cursor: 0,
            cmd_scroll: 0,
            explorer: None,
            confirm_exit: false,
            closing: false,
            should_quit: false,
        };
        assert(r@.files =~= Seq::<Seq<char>>::empty());
        r
    }
}

// ---------------------------------------------------------------- what is left out
/// Whether a path or one of the folders it lies in is in a set. The set holds
/// paths as they are compared.
pub open spec fn lies_in(pl: Platform, dirs: Set<Seq<char>>, s: Seq<char>) -> bool
    decreases s.len(),
{
    dirs.contains(plain_form(pl, s)) || match parent_of(pl, s) {
        Some(p) => if p.len() < s.len() {
            lies_in(pl, dirs, p)
        } else {
            false
        },
        None => false,
    }
}

/// Whether a video is left out, itself or with a folder that it lies in.
pub open spec fn is_file_excluded(a: AppView, canon: Seq<char>) -> bool {
    a.excluded.contains(plain_form(a.platform, canon)) || match parent_of(a.platform, canon) {
        Some(p) => lies_in(a.platform, a.excluded_dirs, p),
        None => false,
    }
}

/// Whether a folder is left out, itself or with a folder that it lies in.
pub open spec fn is_dir_excluded(a: AppView, canon: Seq<char>) -> bool {
    lies_in(a.platform, a.excluded_dirs, canon)
}

fn in_dirs(pl: Platform, dirs: &TextSet, s: &str) -> (r: bool)
    requires
        dirs.wf(),
    ensures
        r == lies_in(pl, dirs@, s@),
    decreases s@.len(),
{
    if dirs.contains(form(pl, s).as_str()) {
        return true;
    }
    proof {
        lemma_parent_is_shorter(pl, s@);
    }
    match parent(pl, s) {
        Some(p) => in_dirs(pl, dirs, p.as_str()),
        None => false,
    }
}

impl App {
    /// Whether a video, by its canonical path, is left out.
    pub fn file_excluded(&self, canon: &str) -> (r: bool)
        requires
            self.wf(),
        ensures
            r == is_file_excluded(self@, canon@),
    {
        self.excluded.contains(form(self.platform, canon).as_str()) || match parent(self.platform, canon) {
            Some(p) => in_dirs(self.platform, &self.excluded_dirs, p.as_str()),
            None => false,
        }
    }

    /// Whether a folder, by its canonical path, is left out.
    pub fn dir_excluded(&self, canon: &str) -> (r: bool)
        requires
            self.wf(),
        ensures
            r == is_dir_excluded(self@, canon@),
    {
        in_dirs(self.platform, &self.excluded_dirs, canon)
    }

    /// Leaves a video out, or takes it in again.
    pub fn toggle_excluded_file(&mut self, canon: &str)
        requires
            old(self).wf(),
        ensures
            final(self).wf(),
            final(self)@ == (AppView {
                excluded: toggled(
                    old(self)@.excluded,
                    plain_form(old(self)@.platform, canon@),
                ),
                ..old(self)@
            }),
    {
        let k = form(self.platform, canon);
        self.excluded.toggle(k.as_str());
    }

    /// Leaves a folder out with all that is in it, or takes it in again.
    pub fn toggle_excluded_dir(&mut self, canon: &str)
        requires
            old(self).wf(),
        ensures
            final(self).wf(),
            final(self)@ == (AppView {
                excluded_dirs: toggled(
                    old(self)@.excluded_dirs,
                    plain_form(old(self)@.platform, canon@),
                ),
                ..old(self)@
            }),
    {
        let k = form(self.platform, canon);
        self.excluded_dirs.toggle(k.as_str());
    }

    /// Takes in what a search found: the videos that are not left out. The
    /// canonical path of each video goes with it.
    pub fn set_files(&mut self, found: &Vec<String>, canon: &Vec<String>)
        requires
            old(self).wf(),
            found@.len() == canon@.len(),
        ensures
            final(self).wf(),
            final(self)@ == (AppView {
                files: not_excluded(old(self)@, texts(found@), texts(canon@)),
                ..old(self)@
            }),
    {
        let ghost a = self@;
        let ghost fs = texts(found@);
        let ghost cs = texts(canon@);
        let mut files: Vec<String> = Vec::new();
        assert(texts(files@) =~= Seq::empty());
        let mut i: usize = 0;
        assert(fs.take(0) =~= Seq::empty());
        while i < found.len()
            invariant
                i <= found@.len() == canon@.len(),
                self.wf(),
                self@ == a,
                *self == *old(self),
                fs == texts(found@),
                cs == texts(canon@),
                texts(files@) == not_excluded(a, fs.take(i as int), cs.take(i as int)),
            decreases found@.len() - i,
        {
            assert(fs.take(i + 1).drop_last() =~= fs.take(i as int));
            assert(cs.take(i + 1).drop_last() =~= cs.take(i as int));
            assert(fs.take(i + 1).last() == found@[i as int]@);
            assert(cs.take(i + 1).last() == canon@[i as int]@);
            if !self.file_excluded(canon[i].as_str()) {
                let t = found[i].clone();
                proof {
                    crate::text::lemma_texts_push(files@, t);
                }
                files.push(t);
            }
            i += 1;
        }
        assert(fs.take(found@.len() as int) =~= fs);
        assert(cs.take(found@.len() as int) =~= cs);
        self.files = files;
    }
}

/// The videos among those found that are not left out.
pub open spec fn not_excluded(
    a: AppView,
    found: Seq<Seq<char>>,
    canon: Seq<Seq<char>>,
) -> Seq<Seq<char>>
    decreases found.len(),
{
    if found.len() == 0 {
        Seq::empty()
    } else {
        let rest = not_excluded(a, found.drop_last(), canon.drop_last());
        if is_file_excluded(a, canon.last()) {
            rest
        } else {
            rest.push(found.last())
        }
    }
}

// ---------------------------------------------------------------- beginning to encode
/// A path without white space and quotes around it.
pub open spec fn unquoted(s: Seq<char>) -> Seq<char> {
    trim_end_of(trim_start_of(trim(s), '"', '"'), '"')
}

/// What comes next when encoding is to begin.
pub enum StartStep {
    /// Nothing; it has begun already, or there is nothing to encode.
    Halt,
    /// Connect to the daemon and submit the files.
    Remote,
    /// See whether ffmpeg and ffprobe are there.
    Check { ffmpeg: String, ffprobe: String },
}

/// Where ffprobe is expected.
pub open spec fn ffprobe_path(pl: Platform, ffmpeg: Seq<char>) -> Seq<char> {
    joined(
        pl,
        match parent_of(pl, ffmpeg) {
            Some(d) => d,
            None => "."@,
        },
        ffprobe_name(pl),
    )
}

/// What local encoding is done with, for all files of the queue.
pub struct RunCfg {
    pub ffmpeg: String,
    pub ffprobe: String,
    pub cwd: String,
    pub crop: CropMode,
    pub preset: String,
    pub high_kbps: i64,
    pub low_kbps: i64,
    pub codec: Codec,
}

/// Whether a configuration is the one that the settings ask for.
pub open spec fn is_run_cfg(c: RunCfg, a: AppView) -> bool {
    &&& c.ffmpeg@ == a.ffmpeg
    &&& c.ffprobe@ == ffprobe_path(a.platform, a.ffmpeg)
    &&& c.cwd@ == a.src_dir
    &&& c.crop == a.crop
    &&& c.preset@ == preset_name(a.preset_idx)
    &&& (c.high_kbps as int, c.low_kbps as int) == rates_of(a.bitrate_idx)
    &&& c.codec == codec_at(a.codec_idx)
}

impl App {
    /// Begins to encode, once the source folder has been searched.
    pub fn start(&mut self, s: &Session) -> (r: StartStep)
        requires
            old(self).wf(),
        ensures
            final(self).wf(),
            match r {
                StartStep::Halt => if s@.running {
                    final(self)@ == old(self)@
                } else {
                    &&& old(self)@.files.len() == 0
                    &&& final(self)@ == (AppView {
                        status_msg: "No files to encode."@,
                        ..old(self)@
                    })
                },
                StartStep::Remote => {
                    &&& !s@.running && old(self)@.files.len() > 0
                    &&& old(self)@.mode == Mode::Daemon
                    &&& final(self)@ == old(self)@
                },
                StartStep::Check { ffmpeg, ffprobe } => {
                    &&& !s@.running && old(self)@.files.len() > 0
                    &&& old(self)@.mode == Mode::Local
                    &&& final(self)@ == (AppView {
                        ffmpeg: unquoted(old(self)@.ffmpeg),
                        ..old(self)@
                    })
                    &&& ffmpeg@ == final(self)@.ffmpeg
                    &&& ffprobe@ == ffprobe_path(old(self)@.platform, ffmpeg@)
                },
            },
    {
        if s.is_running() {
            return StartStep::Halt;
        }
        if self.files.len() == 0 {
            self.status_msg = "No files to encode.".to_string();
            return StartStep::Halt;
        }
        if self.mode == Mode::Daemon {
            return StartStep::Remote;
        }
        let c = chars_of(self.ffmpeg.as_str());
        let t = trim_chars(c.as_slice());
        let t = cut_start(t.as_slice(), '"', '"');
        let t = cut_end(t.as_slice(), '"');
        self.ffmpeg = string_of(t.as_slice());
        let ffprobe = ffprobe_from_ffmpeg(self.platform, self.ffmpeg.as_str());
        StartStep::Check { ffmpeg: self.ffmpeg.clone(), ffprobe }
    }

    /// Begins to encode here, where ffmpeg and ffprobe are there; says what is
    /// missing where they are not.
    pub fn start_local(
        &mut self,
        s: &mut Session,
        ffmpeg_exists: bool,
        ffprobe_exists: bool,
    ) -> (r: Option<(RunCfg, Vec<Effect>)>)
        requires
            old(self).wf(),
            old(s).wf(),
        ensures
            final(self).wf(),
            final(s).wf(),
            final(s).platform() == old(s).platform(),
            match r {
                None => {
                    &&& !ffmpeg_exists || !ffprobe_exists
                    &&& final(s)@ == old(s)@
                    &&& final(self)@ == (AppView {
                        status_msg: if !ffmpeg_exists {
                            "ffmpeg not found at: "@ + old(self)@.ffmpeg
                        } else {
                            "ffprobe missing next to ffmpeg: "@ + ffprobe_path(
                                old(self)@.platform,
                                old(self)@.ffmpeg,
                            )
                        },
                        ..old(self)@
                    })
                },
                Some((cfg, effects)) => {
                    &&& ffmpeg_exists && ffprobe_exists
                    &&& final(self)@ == (AppView {
                        status_msg: ""@,
                        selected_tab: 0,
                        ..old(self)@
                    })
                    &&& final(s)@ == (SessionView {
                        slots: Seq::new(SLOTS as nat, |i: int| idle_slot()),
                        queue: old(self)@.files,
                        target: if old(self)@.parallel < 1 {
                            1
                        } else {
                            old(self)@.parallel
                        },
                        cancel: false,
                        running: true,
                        ..old(s)@
                    })
                    &&& is_run_cfg(cfg, old(self)@)
                    &&& effects_of(effects@) == seq![
                        EffectView::Save { key: "ffmpeg"@, val: old(self)@.ffmpeg },
                        EffectView::Save {
                            key: "codec"@,
                            val: codec_at(old(self)@.codec_idx).spec_label(),
                        },
                    ]
                },
            },
    {
        let ffprobe = ffprobe_from_ffmpeg(self.platform, self.ffmpeg.as_str());
        if !ffmpeg_exists {
            self.status_msg = concat2("ffmpeg not found at: ", self.ffmpeg.as_str());
            return None;
        }
        if !ffprobe_exists {
            self.status_msg = concat2("ffprobe missing next to ffmpeg: ", ffprobe.as_str());
            return None;
        }
        self.status_msg = "".to_string();
        let mut r = no_effects();
        let codec = codec_of(self.codec_idx);
        add_effect(&mut r, save("ffmpeg", self.ffmpeg.as_str()));
        add_effect(&mut r, save("codec", codec.label()));
        assert(effects_of(r@) =~= seq![
            EffectView::Save { key: "ffmpeg"@, val: old(self)@.ffmpeg },
            EffectView::Save { key: "codec"@, val: codec_at(old(self)@.codec_idx).spec_label() },
        ]);
        let (high_kbps, low_kbps) = rates(self.bitrate_idx);
        let cfg = RunCfg {
            ffmpeg: self.ffmpeg.clone(),
            ffprobe,
            cwd: self.src_dir.clone(),
            crop: self.crop,
            preset: preset_of_idx(self.preset_idx).to_string(),
            high_kbps,
            low_kbps,
            codec,
        };
        s.begin_local(&self.files, self.parallel);
        self.selected_tab = 0;
        Some((cfg, r))
    }

    /// Begins to connect: forgets the last error, and gives the address. Nothing
    /// where the connection is there already.
    pub fn connect_daemon(&mut self) -> (r: Option<String>)
        requires
            old(self).wf(),
        ensures
            final(self).wf(),
            match r {
                Some(addr) => {
                    &&& !old(self)@.connected
                    &&& addr@ == trim(old(self)@.daemon_addr)
                    &&& final(self)@ == (AppView { status_msg: ""@, ..old(self)@ })
                },
                None => old(self)@.connected && final(self)@ == old(self)@,
            },
    {
        if self.connected {
            return None;
        }
        self.status_msg = "".to_string();
        let c = chars_of(self.daemon_addr.as_str());
        let t = trim_chars(c.as_slice());
        Some(string_of(t.as_slice()))
    }

    /// The message that introduces the client to the daemon.
    pub fn hello(&self, name: &str) -> (r: C2D)
        ensures
            r matches C2D::Hello { token, name: n } && token@ == self@.token && n@ == name@,
    {
        C2D::Hello { token: self.token.clone(), name: name.to_string() }
    }

    /// Connecting failed on the way.
    pub fn connect_failed(&mut self, how: ConnectError)
        requires
            old(self).wf(),
        ensures
            final(self).wf(),
            final(self)@ == (AppView {
                status_msg: connect_message(old(self)@, how),
                ..old(self)@
            }),
    {
        let msg = match how {
            ConnectError::Unreachable { why } => {
                let c = chars_of(self.daemon_addr.as_str());
                let t = trim_chars(c.as_slice());
                let mut m = concat3(
                    "Couldn't connect to ",
                    string_of(t.as_slice()).as_str(),
                    ": ",
                );
                m.append(why.as_str());
                m
            },
            ConnectError::NoSocket { why } => concat2("clone socket: ", why.as_str()),
            ConnectError::NoHello => "failed sending Hello".to_string(),
            ConnectError::NoReply => "no response from the daemon".to_string(),
        };
        self.status_msg = msg;
    }

    /// Takes in the daemon's first reply, where it could be read. True where the
    /// client is let in.
    pub fn greeted(&mut self, reply: Option<D2C>) -> (r: bool)
        requires
            old(self).wf(),
        ensures
            final(self).wf(),
            r == (reply matches Some(D2C::Welcome { .. })),
            final(self)@ == if r {
                AppView { connected: true, ..old(self)@ }
            } else {
                AppView {
                    status_msg: match reply {
                        Some(D2C::Denied { msg }) => "daemon refused: "@ + msg@,
                        _ => "unexpected response from the daemon"@,
                    },
                    ..old(self)@
                }
            },
    {
        match reply {
            Some(D2C::Welcome { .. }) => {
                self.connected = true;
                true
            },
            Some(D2C::Denied { msg }) => {
                self.status_msg = concat2("daemon refused: ", msg.as_str());
                false
            },
            _ => {
                self.status_msg = "unexpected response from the daemon".to_string();
                false
            },
        }
    }

    /// The connection is closed, by the user or by itself.
    pub fn disconnect_daemon(&mut self, s: &mut Session)
        requires
            old(self).wf(),
            old(s).wf(),
        ensures
            final(self).wf(),
            final(s).wf(),
            final(s).platform() == old(s).platform(),
            final(self)@ == (AppView { connected: false, ..old(self)@ }),
            final(s)@ == (SessionView {
                running: false,
                slots: Seq::new(SLOTS as nat, |i: int| idle_slot()),
                files: Map::empty(),
                slot_of: Map::empty(),
                ..old(s)@
            }),
    {
        self.connected = false;
        s.set_running(false);
        s.clear_jobs();
    }

    /// The connection to the daemon has ended.
    pub fn connection_lost(&mut self, s: &mut Session)
        requires
            old(self).wf(),
            old(s).wf(),
        ensures
            final(self).wf(),
            final(s).wf(),
            final(s).platform() == old(s).platform(),
            final(self)@ == (AppView { connected: false, ..old(self)@ }),
            final(s)@ == (SessionView { running: false, ..old(s)@ }),
    {
        self.connected = false;
        s.set_running(false);
    }

    /// Submits all files to the daemon. `sizes` are the sizes of the files.
    pub fn start_daemon(&mut self, s: &mut Session, sizes: &Vec<u64>) -> (r: (
        Vec<Effect>,
        Vec<C2D>,
    ))
        requires
            old(self).wf(),
            old(s).wf(),
            sizes@.len() == old(self)@.files.len(),
            old(self)@.job_counter + old(self)@.files.len() <= u64::MAX,
        ensures
            final(self).wf(),
            final(s).wf(),
            final(s).platform() == old(s).platform(),
            final(self)@ == (AppView {
                selected_tab: 0,
                status_msg: ""@,
                job_counter: old(self)@.job_counter + old(self)@.files.len(),
                ..old(self)@
            }),
            final(s)@ == (SessionView {
                slots: Seq::new(SLOTS as nat, |i: int| idle_slot()),
                files: files_for(
                    old(self)@.files,
                    old(self)@.job_counter,
                    old(self)@.files.len() as int,
                ),
                slot_of: Map::empty(),
                running: true,
                ..old(s)@
            }),
            effects_of(r.0@) == seq![
                EffectView::Save { key: "mode"@, val: "daemon"@ },
                EffectView::Save { key: "daemon_addr"@, val: old(self)@.daemon_addr },
                EffectView::Save { key: "token"@, val: old(self)@.token },
                EffectView::Save {
                    key: "codec"@,
                    val: codec_at(old(self)@.codec_idx).spec_label(),
                },
            ],
            r.1@.len() == old(self)@.files.len() + 1,
            r.1@[0] matches C2D::SetParallel { n } && n == (if old(self)@.parallel < 1 {
                1
            } else {
                old(self)@.parallel
            }),
            forall|k: int|
                0 <= k < old(self)@.files.len() ==> is_submission(
                    old(self)@,
                    old(s).platform(),
                    #[trigger] r.1@[k + 1],
                    k,
                    sizes@[k],
                ),
    {
        let ghost a = self@;
        let codec = codec_of(self.codec_idx);
        let mut r = no_effects();
        add_effect(&mut r, save("mode", "daemon"));
        add_effect(&mut r, save("daemon_addr", self.daemon_addr.as_str()));
        add_effect(&mut r, save("token", self.token.as_str()));
        add_effect(&mut r, save("codec", codec.label()));
        assert(effects_of(r@) =~= seq![
            EffectView::Save { key: "mode"@, val: "daemon"@ },
            EffectView::Save { key: "daemon_addr"@, val: a.daemon_addr },
            EffectView::Save { key: "token"@, val: a.token },
            EffectView::Save { key: "codec"@, val: codec_at(a.codec_idx).spec_label() },
        ]);
        self.selected_tab = 0;
        self.status_msg = "".to_string();
        let set = JobSettings {
            crop: self.crop,
            codec,
            preset: preset_of_idx(self.preset_idx).to_string(),
            bitrate_idx: self.bitrate_idx,
        };
        let ghost pl = s.platform();
        let msgs = s.submit(&self.files, sizes, self.job_counter, self.parallel, &set);
        let n = self.files.len() as u64;
        self.job_counter = self.job_counter + n;
        assert forall|k: int| 0 <= k < a.files.len() implies is_submission(
            a,
            pl,
            #[trigger] msgs@[k + 1],
            k,
            sizes@[k],
        ) by {
            assert(submits(pl, msgs@[k + 1], a.job_counter + k, a.files[k], sizes@[k], set));
        }
        (r, msgs)
    }

    /// How many files are left: all of them before it begins, those that are not
    /// done yet while it goes on.
    pub fn queue_len(&self, s: &Session) -> (r: usize)
        requires
            s.wf(),
            s@.queue.len() + SLOTS <= usize::MAX,
        ensures
            r == files_left(self@, s@),
    {
        if s.is_running() {
            if self.mode == Mode::Daemon {
                s.job_count()
            } else {
                s.queue_count() + s.running_count()
            }
        } else {
            self.files.len()
        }
    }

    /// What is to be done before the screen is drawn: the source folder is
    /// searched once, and a daemon without jobs left is not running any more.
    pub fn before_draw(&mut self, s: &mut Session) -> (r: Vec<Effect>)
        requires
            old(self).wf(),
            old(s).wf(),
        ensures
            final(self).wf(),
            final(s).wf(),
            final(s).platform() == old(s).platform(),
            final(self)@ == (AppView {
                needs_scan: old(self)@.needs_scan && old(s)@.running,
                ..old(self)@
            }),
            final(s)@ == (SessionView {
                running: old(s)@.running && !(old(self)@.mode == Mode::Daemon && old(
                    s,
                )@.files.dom().len() == 0),
                ..old(s)@
            }),
            effects_of(r@) == if old(self)@.needs_scan && !old(s)@.running {
                seq![EffectView::Scan]
            } else {
                Seq::<EffectView>::empty()
            },
    {
        let mut r = no_effects();
        if self.needs_scan && !s.is_running() {
            add_effect(&mut r, Effect::Scan);
            assert(effects_of(r@) =~= seq![EffectView::Scan]);
            self.needs_scan = false;
        }
        if self.mode == Mode::Daemon && s.is_running() && s.job_count() == 0 {
            s.set_running(false);
        }
        r
    }

    /// What is to be done after the user's input: once everything has stopped, a
    /// client that is closing keeps its settings and ends.
    pub fn after_input(&mut self, s: &Session) -> (r: Vec<Effect>)
        requires
            old(self).wf(),
            s.wf(),
        ensures
            final(self).wf(),
            final(self)@ == (AppView {
                should_quit: old(self)@.should_quit || may_close(old(self)@, s@),
                ..old(self)@
            }),
            effects_of(r@) == if may_close(old(self)@, s@) {
                all_saved(old(self)@)
            } else {
                Seq::<EffectView>::empty()
            },
    {
        if self.closing && s.running_count() == 0 {
            let r = self.persist_all();
            self.should_quit = true;
            r
        } else {
            no_effects()
        }
    }
}

/// Whether a client that is closing can end.
pub open spec fn may_close(a: AppView, s: SessionView) -> bool {
    a.closing && count_running(s.slots) == 0
}

/// How many files are left.
pub open spec fn files_left(a: AppView, s: SessionView) -> int {
    if s.running {
        if a.mode == Mode::Daemon {
            s.files.dom().len() as int
        } else {
            s.queue.len() + count_running(s.slots)
        }
    } else {
        a.files.len() as int
    }
}

/// Whether a message submits the file at a position with the settings there are.
pub open spec fn is_submission(a: AppView, pl: Platform, m: C2D, k: int, size: u64) -> bool {
    exists|set: JobSettings|
        {
            &&& set.crop == a.crop
            &&& set.codec == codec_at(a.codec_idx)
            &&& set.preset@ == preset_name(a.preset_idx)
            &&& set.bitrate_idx == a.bitrate_idx
            &&& #[trigger] submits(pl, m, a.job_counter + k, a.files[k], size, set)
        }
}

/// How connecting failed.
pub enum ConnectError {
    /// There is nothing at the address.
    Unreachable { why: String },
    /// The socket could not be shared.
    NoSocket { why: String },
    /// The introduction could not be sent.
    NoHello,
    /// No reply came.
    NoReply,
}

/// What is shown of a failure to connect.
pub open spec fn connect_message(a: AppView, how: ConnectError) -> Seq<char> {
    match how {
        ConnectError::Unreachable { why } => "Couldn't connect to "@ + trim(a.daemon_addr) + ": "@
            + why@,
        ConnectError::NoSocket { why } => "clone socket: "@ + why@,
        ConnectError::NoHello => "failed sending Hello"@,
        ConnectError::NoReply => "no response from the daemon"@,
    }
}

// ---------------------------------------------------------------- laws
/// The folder that is `k` levels above a path.
pub open spec fn folder_above(pl: Platform, s: Seq<char>, k: int) -> Option<Seq<char>>
    decreases k,
{
    if k <= 0 {
        Some(s)
    } else {
        match parent_of(pl, s) {
            Some(d) => folder_above(pl, d, k - 1),
            None => None,
        }
    }
}

/// Whether the folder that is `k` levels above a path is in a set.
pub open spec fn above_is_in(pl: Platform, dirs: Set<Seq<char>>, s: Seq<char>, k: int) -> bool {
    folder_above(pl, s, k) matches Some(d) && dirs.contains(plain_form(pl, d))
}

proof fn lemma_lies_in(pl: Platform, dirs: Set<Seq<char>>, s: Seq<char>)
    ensures
        lies_in(pl, dirs, s) <==> exists|k: int| k >= 0 && #[trigger] above_is_in(pl, dirs, s, k),
    decreases s.len(),
{
    lemma_parent_is_shorter(pl, s);
    if dirs.contains(plain_form(pl, s)) {
        assert(above_is_in(pl, dirs, s, 0));
    } else if let Some(d) = parent_of(pl, s) {
        lemma_lies_in(pl, dirs, d);
        if lies_in(pl, dirs, d) {
            let k = choose|k: int| k >= 0 && #[trigger] above_is_in(pl, dirs, d, k);
            assert(above_is_in(pl, dirs, s, k + 1));
        }
        if exists|k: int| k >= 0 && #[trigger] above_is_in(pl, dirs, s, k) {
            let k = choose|k: int| k >= 0 && #[trigger] above_is_in(pl, dirs, s, k);
            assert(k > 0);
            assert(above_is_in(pl, dirs, d, k - 1));
        }
    } else {
        assert forall|k: int| k >= 0 implies !#[trigger] above_is_in(pl, dirs, s, k) by {}
    }
}

/// A folder is left out exactly where it or a folder above it was left out. A
/// video is left out exactly where it was left out itself, or a folder above it.
pub proof fn excluded_by_itself_or_a_folder_above(a: AppView, s: Seq<char>)
    ensures
        is_dir_excluded(a, s) <==> exists|k: int|
            k >= 0 && #[trigger] above_is_in(a.platform, a.excluded_dirs, s, k),
        is_file_excluded(a, s) <==> a.excluded.contains(plain_form(a.platform, s)) || exists|k: int|
            k >= 1 && #[trigger] above_is_in(a.platform, a.excluded_dirs, s, k),
{
    lemma_lies_in(a.platform, a.excluded_dirs, s);
    if let Some(d) = parent_of(a.platform, s) {
        lemma_lies_in(a.platform, a.excluded_dirs, d);
        if lies_in(a.platform, a.excluded_dirs, d) {
            let k = choose|k: int|
                k >= 0 && #[trigger] above_is_in(a.platform, a.excluded_dirs, d, k);
            assert(above_is_in(a.platform, a.excluded_dirs, s, k + 1));
        }
        if exists|k: int| k >= 1 && #[trigger] above_is_in(a.platform, a.excluded_dirs, s, k) {
            let k = choose|k: int|
                k >= 1 && #[trigger] above_is_in(a.platform, a.excluded_dirs, s, k);
            assert(above_is_in(a.platform, a.excluded_dirs, d, k - 1));
        }
    }
}

proof fn lemma_above_adds(pl: Platform, s: Seq<char>, d: Seq<char>, i: int, j: int)
    requires
        i >= 0,
        j >= 0,
        folder_above(pl, s, i) == Some(d),
    ensures
        folder_above(pl, s, i + j) == folder_above(pl, d, j),
    decreases i,
{
    if i > 0 {
        lemma_above_adds(pl, parent_of(pl, s).unwrap(), d, i - 1, j);
    }
}

/// A folder that is left out leaves out everything below it, however deep.
pub proof fn folder_leaves_out_its_contents(a: AppView, dir: Seq<char>, s: Seq<char>, k: int)
    requires
        k >= 1,
        folder_above(a.platform, s, k) == Some(dir),
        is_dir_excluded(a, dir),
    ensures
        is_file_excluded(a, s),
        is_dir_excluded(a, s),
{
    excluded_by_itself_or_a_folder_above(a, dir);
    excluded_by_itself_or_a_folder_above(a, s);
    let j = choose|j: int| j >= 0 && #[trigger] above_is_in(a.platform, a.excluded_dirs, dir, j);
    lemma_above_adds(a.platform, s, dir, k, j);
    assert(above_is_in(a.platform, a.excluded_dirs, s, k + j));
}

/// The path that some names lead to from a folder.
pub open spec fn led_to(pl: Platform, dir: Seq<char>, names: Seq<Seq<char>>) -> Seq<char>
    decreases names.len(),
{
    if names.len() == 0 {
        dir
    } else {
        joined(pl, led_to(pl, dir, names.drop_last()), names.last())
    }
}

proof fn lemma_led_to(pl: Platform, dir: Seq<char>, names: Seq<Seq<char>>)
    requires
        takes_names(pl, dir),
        names.len() > 0,
        forall|i: int|
            0 <= i < names.len() ==> is_plain_name(pl, #[trigger] names[i]) && prefix_len(
                pl,
                names[i],
            ) == 0,
    ensures
        takes_names(pl, led_to(pl, dir, names)),
        home(pl, led_to(pl, dir, names)) == led_to(pl, dir, names),
        folder_above(pl, led_to(pl, dir, names), names.len() as int) == Some(home(pl, dir)),
    decreases names.len(),
{
    let rest = names.drop_last();
    assert(names.last() == names[names.len() - 1]);
    if rest.len() > 0 {
        assert forall|i: int| 0 <= i < rest.len() implies is_plain_name(pl, #[trigger] rest[i])
            && prefix_len(pl, rest[i]) == 0 by {
            assert(rest[i] == names[i]);
        }
        lemma_led_to(pl, dir, rest);
    }
    joined_name_is_last(pl, led_to(pl, dir, rest), names.last());
    if rest.len() == 0 {
        assert(folder_above(pl, home(pl, dir), 0) == Some(home(pl, dir)));
    }
}

proof fn lemma_home_lies_in(pl: Platform, dirs: Set<Seq<char>>, dir: Seq<char>)
    requires
        takes_names(pl, dir),
    ensures
        lies_in(pl, dirs, home(pl, dir)) == lies_in(pl, dirs, dir),
    decreases dir.len(),
{
    home_is_kept(pl, dir);
    lemma_parent_is_shorter(pl, dir);
    lemma_parent_is_shorter(pl, home(pl, dir));
    if let Some(d) = parent_of(pl, dir) {
        if is_verbatim(pl, dir) {
            lemma_home_lies_in(pl, dirs, d);
        } else {
            parent_is_tidy(pl, dir);
        }
    }
}

/// Whatever names lead into a folder that is left out, what they lead to is left
/// out too.
pub proof fn what_lies_below_is_left_out(a: AppView, dir: Seq<char>, names: Seq<Seq<char>>)
    requires
        takes_names(a.platform, dir),
        is_dir_excluded(a, dir),
        names.len() > 0,
        forall|i: int|
            0 <= i < names.len() ==> is_plain_name(a.platform, #[trigger] names[i]) && prefix_len(
                a.platform,
                names[i],
            ) == 0,
    ensures
        is_file_excluded(a, led_to(a.platform, dir, names)),
{
    lemma_led_to(a.platform, dir, names);
    lemma_home_lies_in(a.platform, a.excluded_dirs, dir);
    folder_leaves_out_its_contents(
        a,
        home(a.platform, dir),
        led_to(a.platform, dir, names),
        names.len() as int,
    );
}

/// What a scan keeps was found by it, and neither it nor a folder above it was
/// left out.
pub proof fn nothing_excluded_is_kept(
    a: AppView,
    found: Seq<Seq<char>>,
    canon: Seq<Seq<char>>,
    file: Seq<char>,
)
    requires
        found.len() == canon.len(),
        not_excluded(a, found, canon).contains(file),
    ensures
        exists|i: int|
            {
                &&& 0 <= i < found.len()
                &&& found[i] == file
                &&& !is_file_excluded(a, #[trigger] canon[i])
                &&& !a.excluded.contains(plain_form(a.platform, canon[i]))
                &&& forall|k: int|
                    k >= 1 ==> !#[trigger] above_is_in(a.platform, a.excluded_dirs, canon[i], k)
            },
    decreases found.len(),
{
    if found.len() > 0 {
        let all = not_excluded(a, found, canon);
        let rest = not_excluded(a, found.drop_last(), canon.drop_last());
        let at = choose|at: int| 0 <= at < all.len() && all[at] == file;
        if at < rest.len() {
            assert(rest[at] == file);
            nothing_excluded_is_kept(a, found.drop_last(), canon.drop_last(), file);
            let i = choose|i: int|
                {
                    &&& 0 <= i < found.drop_last().len()
                    &&& found.drop_last()[i] == file
                    &&& !is_file_excluded(a, #[trigger] canon.drop_last()[i])
                };
            assert(found.drop_last()[i] == found[i] && canon.drop_last()[i] == canon[i]);
            excluded_by_itself_or_a_folder_above(a, canon[i]);
        } else {
            let i = found.len() - 1;
            excluded_by_itself_or_a_folder_above(a, canon[i]);
            assert(found[i] == file && !is_file_excluded(a, canon[i]));
        }
    }
}

/// What is not left out is not lost.
pub proof fn only_the_excluded_are_dropped(
    a: AppView,
    found: Seq<Seq<char>>,
    canon: Seq<Seq<char>>,
    i: int,
)
    requires
        found.len() == canon.len(),
        0 <= i < found.len(),
        !is_file_excluded(a, canon[i]),
    ensures
        not_excluded(a, found, canon).contains(found[i]),
    decreases found.len(),
{
    let rest = not_excluded(a, found.drop_last(), canon.drop_last());
    let all = not_excluded(a, found, canon);
    if i < found.len() - 1 {
        only_the_excluded_are_dropped(a, found.drop_last(), canon.drop_last(), i);
        assert(found.drop_last()[i] == found[i]);
        let k = rest.index_of(found[i]);
        assert(all[k] == found[i]);
    } else {
        assert(all.last() == found[i]);
    }
}

/// A client that closes ends only when no ffmpeg of its own runs any more.
pub proof fn closing_waits(a: AppView, s: SessionView)
    requires
        count_running(s.slots) > 0,
    ensures
        !may_close(a, s),
{
}

/// What was kept when the client ended is there again when it starts: where it
/// encodes, ffmpeg, the daemon's address, the token and the codec.
pub proof fn kept_settings_come_back(
    a: AppView,
    pl: Platform,
    src: Seq<char>,
    ffmpeg: Seq<char>,
    preset: int,
    kept: Kept,
)
    requires
        0 <= a.codec_idx < 3,
        text_in(kept.mode) == Some(crate::app::mode_name(a.mode)),
        text_in(kept.ffmpeg) == Some(a.ffmpeg),
        text_in(kept.daemon_addr) == Some(a.daemon_addr),
        text_in(kept.token) == Some(a.token),
        text_in(kept.codec) == Some(codec_at(a.codec_idx).spec_label()),
    ensures
        ({
            let i = initial(pl, src, ffmpeg, preset, kept);
            &&& i.mode == a.mode
            &&& i.ffmpeg == a.ffmpeg
            &&& i.daemon_addr == a.daemon_addr
            &&& i.token == a.token
            &&& i.codec_idx == a.codec_idx
            &&& i.src_dir == src
            &&& i.preset_idx == preset
        }),
{
    reveal_strlit("daemon");
    reveal_strlit("local");
    assert("daemon"@[0] == 'd' && "local"@[0] == 'l');
    crate::encoder::codecs_have_their_names(codec_at(a.codec_idx));
}

/// A client that has kept nothing encodes here, in AV1, one file at a time, without
/// a crop and at the third rates; it would ask the daemon on its own machine. It
/// searches its folder first.
pub proof fn client_starts_with_defaults(
    pl: Platform,
    src: Seq<char>,
    ffmpeg: Seq<char>,
    preset: int,
    kept: Kept,
)
    requires
        kept.mode is None,
        kept.ffmpeg is None,
        kept.daemon_addr is None,
        kept.token is None,
        kept.codec is None,
    ensures
        ({
            let i = initial(pl, src, ffmpeg, preset, kept);
            &&& i.mode == Mode::Local
            &&& i.ffmpeg == ffmpeg
            &&& i.daemon_addr == "127.0.0.1:7878"@
            &&& i.token == "changeme"@
            &&& codec_at(i.codec_idx) == Codec::Av1
            &&& i.crop == CropMode::NoCrop
            &&& i.parallel == 1
            &&& i.bitrate_idx == 2
            &&& i.needs_scan && !i.connected && !i.should_quit && !i.closing && !i.confirm_exit
            &&& i.job_counter == 0 && i.files.len() == 0 && i.explorer is None
            &&& i.focus == Focus::Nowhere && i.selected_tab == 0 && i.status_msg == ""@
        }),
{
}

/// The codec of a name is at its position.
pub proof fn codecs_are_found_by_name(i: int)
    requires
        0 <= i < 3,
    ensures
        codec_index(Some(codec_at(i).spec_label())) == i,
        codec_index(None) == 2,
{
    crate::encoder::codecs_have_their_names(codec_at(i));
}

/// A path in quotes, with or without white space around them, is the path.
pub proof fn quotes_are_taken_off(before: Seq<char>, path: Seq<char>, after: Seq<char>)
    requires
        crate::text::all_white(before),
        crate::text::all_white(after),
        path.len() > 0,
        path[0] != '"',
        path.last() != '"',
        crate::text::is_trimmed(path),
    ensures
        unquoted(before + (seq!['"'] + path + seq!['"']) + after) == path,
        unquoted(before + path + after) == path,
{
    let q = seq!['"'] + path + seq!['"'];
    assert(q[0] == '"' && q.last() == '"');
    crate::text::white_ends_are_trimmed(before, q, after);
    crate::text::white_ends_are_trimmed(before, path, after);
    let t = path + seq!['"'];
    assert(q.drop_first() =~= t);
    assert(t[0] == path[0]);
    assert(t.drop_last() =~= path);
    reveal_with_fuel(trim_start_of, 2);
    reveal_with_fuel(trim_end_of, 2);
}

/// What is not left out stays in its order.
pub proof fn kept_files_stay_in_order(
    a: AppView,
    found: Seq<Seq<char>>,
    canon: Seq<Seq<char>>,
    f: Seq<char>,
    c: Seq<char>,
)
    requires
        found.len() == canon.len(),
    ensures
        is_file_excluded(a, c) ==> not_excluded(a, found.push(f), canon.push(c)) == not_excluded(
            a,
            found,
            canon,
        ),
        !is_file_excluded(a, c) ==> not_excluded(a, found.push(f), canon.push(c)) == not_excluded(
            a,
            found,
            canon,
        ).push(f),
        not_excluded(a, Seq::empty(), Seq::empty()) == Seq::<Seq<char>>::empty(),
{
    assert(found.push(f).drop_last() =~= found);
    assert(canon.push(c).drop_last() =~= canon);
}

/// How many files are left: all before it begins; the daemon's jobs, or those that
/// wait and those that run, while it goes on. A client that closes ends once none
/// runs.
pub proof fn files_left_are_counted(a: AppView, s: SessionView)
    ensures
        !s.running ==> files_left(a, s) == a.files.len(),
        s.running && a.mode == Mode::Daemon ==> files_left(a, s) == s.files.dom().len(),
        s.running && a.mode == Mode::Local ==> files_left(a, s) == s.queue.len() + count_running(
            s.slots,
        ),
        may_close(a, s) <==> a.closing && count_running(s.slots) == 0,
{
}

/// What is said where connecting fails.
pub proof fn failed_connection_is_explained(a: AppView, why: String)
    ensures
        connect_message(a, ConnectError::Unreachable { why }) == "Couldn't connect to "@ + trim(
            a.daemon_addr,
        ) + ": "@ + why@,
        connect_message(a, ConnectError::NoSocket { why }) == "clone socket: "@ + why@,
        connect_message(a, ConnectError::NoHello) == "failed sending Hello"@,
        connect_message(a, ConnectError::NoReply) == "no response from the daemon"@,
{
}

/// Local files are encoded as the client is set: with its crop, its preset, its codec
/// and its rates.
pub proof fn local_files_are_encoded_as_set(c: RunCfg, a: AppView)
    requires
        is_run_cfg(c, a),
        0 <= a.preset_idx < 7,
        0 <= a.bitrate_idx < 4,
    ensures
        c.ffmpeg@ == a.ffmpeg,
        c.cwd@ == a.src_dir,
        c.crop == a.crop,
        c.preset@ == "p"@ + crate::number::dec(a.preset_idx + 1),
        c.high_kbps == 10000 - 2000 * a.bitrate_idx,
        c.low_kbps == 8000 - 2000 * a.bitrate_idx,
        a.codec_idx == 0 ==> c.codec == Codec::H264,
        a.codec_idx == 1 ==> c.codec == Codec::H265,
        a.codec_idx == 2 ==> c.codec == Codec::Av1,
{
    crate::app::presets_are_numbered(a.preset_idx);
}

/// ffprobe is looked for beside ffmpeg, under the name that its platform gives it.
pub proof fn ffprobe_lies_beside_ffmpeg(pl: Platform, dir: Seq<char>, name: Seq<char>)
    requires
        is_plain_name(pl, name),
        prefix_len(pl, name) == 0,
        takes_names(pl, dir),
    ensures
        pl == Platform::Unix ==> ffprobe_path(pl, joined(pl, dir, name)) == joined(
            pl,
            home(pl, dir),
            "ffprobe"@,
        ),
        pl == Platform::Windows ==> ffprobe_path(pl, joined(pl, dir, name)) == joined(
            pl,
            home(pl, dir),
            "ffprobe.exe"@,
        ),
{
    joined_name_is_last(pl, dir, name);
    crate::encoder::probe_program_has_its_name(pl);
}

/// A file is submitted with what the client is set to, under a number that counts on.
pub proof fn files_are_submitted_as_set(a: AppView, pl: Platform, m: C2D, k: int, size: u64)
    requires
        is_submission(a, pl, m, k, size),
        0 <= a.codec_idx <= 2,
        0 <= a.preset_idx <= 6,
    ensures
        m matches C2D::Submit {
            job_id,
            filename,
            size: s,
            crop,
            codec,
            preset,
            bitrate_idx,
            local_path,
        } && job_id@ == "j"@ + crate::number::dec(a.job_counter + k) && s == size && (
        crate::path::file_name_of(pl, a.files[k]) matches Some(f) ==> filename@ == f) && (crop == 1
            <==> a.crop == CropMode::Centered) && (crop == 2 <==> a.crop == CropMode::OneThird) && (
        crop == 3 <==> a.crop == CropMode::NoCrop) && (codec@ == "H264"@ <==> a.codec_idx == 0) && (
        codec@ == "H265"@ <==> a.codec_idx == 1) && (codec@ == "AV1"@ <==> a.codec_idx == 2)
            && preset@ == "p"@ + crate::number::dec(a.preset_idx + 1) && bitrate_idx
            == a.bitrate_idx && local_path is None,
{
    let set = choose|set: JobSettings|
        {
            &&& set.crop == a.crop
            &&& set.codec == codec_at(a.codec_idx)
            &&& set.preset@ == preset_name(a.preset_idx)
            &&& set.bitrate_idx == a.bitrate_idx
            &&& #[trigger] submits(pl, m, a.job_counter + k, a.files[k], size, set)
        };
    crate::session::submission_says_what_was_set(
        pl,
        m,
        a.job_counter + k,
        a.files[k],
        size,
        set,
    );
    crate::app::presets_are_numbered(a.preset_idx);
}

} // verus!
