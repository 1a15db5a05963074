//! The terminal client's state, and what its user's clicks and keys do to it.
//!
//! Files, sockets and processes are the caller's part: what the user does comes
//! back as a list of effects for the caller to bring about.
use vstd::prelude::*;
use vstd::string::*;
use crate::collections::TextSet;
use crate::encoder::{Codec, CropMode};
use crate::explorer::{ExKind, Explorer, ExplorerView};
use crate::number::dec;
use crate::path::{join, joined, parent_of, Platform};
use crate::server::crop_from;
use crate::session::{count_running, places, running_among, Session, SessionView};
use crate::slot::SLOTS;
use crate::text::{chars_of, string_of, texts};
use crate::ui::smaller;

verus! {

/// The presets, from quality to speed.
pub const PRESETS: [&'static str; 7] = ["p1", "p2", "p3", "p4", "p5", "p6", "p7"];

/// The codecs to choose from.
pub const CODECS: [Codec; 3] = [Codec::H264, Codec::H265, Codec::Av1];

/// The name of a preset.
pub open spec fn preset_name(i: int) -> Seq<char> {
    if i <= 0 {
        "p1"@
    } else if i == 1 {
        "p2"@
    } else if i == 2 {
        "p3"@
    } else if i == 3 {
        "p4"@
    } else if i == 4 {
        "p5"@
    } else if i == 5 {
        "p6"@
    } else {
        "p7"@
    }
}

/// The codec at a position.
pub open spec fn codec_at(i: int) -> Codec {
    if i <= 0 {
        Codec::H264
    } else if i == 1 {
        Codec::H265
    } else {
        Codec::Av1
    }
}

/// Whether ffmpeg runs here or at a daemon.
#[derive(Clone, Copy, PartialEq, Eq, Structural, Debug)]
pub enum Mode {
    Local,
    Daemon,
}

/// The things on the screen that can be clicked.
#[derive(Clone, Copy, PartialEq, Eq, Structural, Debug)]
pub enum ElemId {
    TitleClose,
    ModeLocal,
    ModeRemote,
    FieldFfmpeg,
    BrowseFfmpeg,
    FieldServer,
    FieldToken,
    ConnectBtn,
    FieldSrc,
    BrowseSrc,
    Play,
    Stop,
    Crop(u8),
    Codec(usize),
    Encoders(usize),
    Preset(usize),
    Bitrate(usize),
    Tab(usize),
    KeyZone,
    KeyBtn(u8),
    ExRow(usize),
    ExCheck(usize),
    ExUp,
    ExOpen,
    ExCancel,
    ConfirmYes,
    ConfirmNo,
}

/// What the keyboard goes to.
#[derive(Clone, Copy, PartialEq, Eq, Structural, Debug)]
pub enum Focus {
    /// Nothing in particular.
    Nowhere,
    Ffmpeg,
    Server,
    Token,
    Src,
    KeyZone,
}

/// A key.
#[derive(Clone, Copy, PartialEq, Eq, Structural, Debug)]
pub enum Key {
    Char(char),
    Backspace,
    Delete,
    Left,
    Right,
    Up,
    Down,
    Home,
    End,
    Enter,
    Esc,
    Tab,
    Other,
}

/// A part of the screen, in character cells.
#[derive(Clone, Copy, PartialEq, Eq, Structural, Debug)]
pub struct Rect {
    pub x: u16,
    pub y: u16,
    pub width: u16,
    pub height: u16,
}

/// What the caller is to bring about.
pub enum Effect {
    /// Keep a setting.
    Save { key: String, val: String },
    /// Search the source folder again.
    Scan,
    /// Open the explorer at a path.
    Browse { kind: ExKind, start: String },
    /// Read the folder that the explorer has moved to.
    List { dir: String },
    /// Mark a file or a folder as excluded, or as not excluded any more, and
    /// search again.
    Toggle { path: String, is_dir: bool },
    /// Connect to the daemon.
    Connect,
    /// Close the connection to the daemon.
    Disconnect,
    /// Begin to encode.
    Start,
    /// Type keys to the ffmpeg of a slot.
    Feed { slot: usize, keys: String },
    /// Tell the daemon how many jobs may run at once.
    TellParallel { n: usize },
    /// Tell the daemon to cancel a job.
    TellCancel { job_id: String },
    /// Tell the daemon to type a key to a job's ffmpeg.
    TellKey { job_id: String, key: String },
}

/// The contents of an [`Effect`].
pub enum EffectView {
    Save { key: Seq<char>, val: Seq<char> },
    Scan,
    Browse { kind: ExKind, start: Seq<char> },
    List { dir: Seq<char> },
    Toggle { path: Seq<char>, is_dir: bool },
    Connect,
    Disconnect,
    Start,
    Feed { slot: int, keys: Seq<char> },
    TellParallel { n: int },
    TellCancel { job_id: Seq<char> },
    TellKey { job_id: Seq<char>, key: Seq<char> },
}

impl Effect {
    pub open spec fn view(&self) -> EffectView {
        match self {
            Effect::Save { key, val } => EffectView::Save { key: key@, val: val@ },
            Effect::Scan => EffectView::Scan,
            Effect::Browse { kind, start } => EffectView::Browse { kind: *kind, start: start@ },
            Effect::List { dir } => EffectView::List { dir: dir@ },
            Effect::Toggle { path, is_dir } => EffectView::Toggle { path: path@, is_dir: *is_dir },
            Effect::Connect => EffectView::Connect,
            Effect::Disconnect => EffectView::Disconnect,
            Effect::Start => EffectView::Start,
            Effect::Feed { slot, keys } => EffectView::Feed { slot: *slot as int, keys: keys@ },
            Effect::TellParallel { n } => EffectView::TellParallel { n: *n as int },
            Effect::TellCancel { job_id } => EffectView::TellCancel { job_id: job_id@ },
            Effect::TellKey { job_id, key } => EffectView::TellKey { job_id: job_id@, key: key@ },
        }
    }
}

/// The contents of some effects.
pub open spec fn effects_of(e: Seq<Effect>) -> Seq<EffectView> {
    Seq::new(e.len(), |i: int| e[i]@)
}

/// The client's state.
pub struct App {
    pub platform: Platform,
    pub mode: Mode,
    pub ffmpeg: String,
    pub daemon_addr: String,
    pub token: String,
    pub src_dir: String,
    pub crop: CropMode,
    pub parallel: usize,
    pub preset_idx: usize,
    pub bitrate_idx: usize,
    pub codec_idx: usize,
    pub connected: bool,
    pub job_counter: u64,
    pub files: Vec<String>,
    /// The videos that are left out.
    pub excluded: TextSet,
    /// The folders that are left out, with all that is in them.
    pub excluded_dirs: TextSet,
    pub selected_tab: usize,
    pub status_msg: String,
    pub needs_scan: bool,
    pub hover: Option<ElemId>,
    pub focus: Focus,
    pub edit_cursor: usize,
    pub cmd_scroll: u16,
    pub explorer: Option<Explorer>,
    pub confirm_exit: bool,
    pub closing: bool,
    pub should_quit: bool,
}

/// The contents of an [`App`].
pub struct AppView {
    pub platform: Platform,
    pub mode: Mode,
    pub ffmpeg: Seq<char>,
    pub daemon_addr: Seq<char>,
    pub token: Seq<char>,
    pub src_dir: Seq<char>,
    pub crop: CropMode,
    pub parallel: int,
    pub preset_idx: int,
    pub bitrate_idx: int,
    pub codec_idx: int,
    pub connected: bool,
    pub job_counter: int,
    pub files: Seq<Seq<char>>,
    pub excluded: Set<Seq<char>>,
    pub excluded_dirs: Set<Seq<char>>,
    pub selected_tab: int,
    pub status_msg: Seq<char>,
    pub needs_scan: bool,
    pub hover: Option<ElemId>,
    pub focus: Focus,
    pub edit_cursor: int,
    pub cmd_scroll: int,
    pub explorer: Option<ExplorerView>,
    pub confirm_exit: bool,
    pub closing: bool,
    pub should_quit: bool,
}

/// The state of the client and its session, and the effects that led there.
pub struct Step {
    pub app: AppView,
    pub session: SessionView,
    pub effects: Seq<EffectView>,
}

// ---------------------------------------------------------------- fields
/// The text of a field.
pub open spec fn field_text(a: AppView, f: Focus) -> Seq<char> {
    match f {
        Focus::Ffmpeg => a.ffmpeg,
        Focus::Server => a.daemon_addr,
        Focus::Token => a.token,
        Focus::Src => a.src_dir,
        _ => ""@,
    }
}

/// Whether the keyboard goes to a text field.
pub open spec fn is_field(f: Focus) -> bool {
    f == Focus::Ffmpeg || f == Focus::Server || f == Focus::Token || f == Focus::Src
}

/// The state with another text in the field that has the keyboard.
pub open spec fn with_field_text(a: AppView, s: Seq<char>) -> AppView {
    match a.focus {
        Focus::Ffmpeg => AppView { ffmpeg: s, ..a },
        Focus::Server => AppView { daemon_addr: s, ..a },
        Focus::Token => AppView { token: s, ..a },
        Focus::Src => AppView { src_dir: s, ..a },
        _ => a,
    }
}

/// What is kept when a field loses the keyboard.
pub open spec fn blur_effects(a: AppView) -> Seq<EffectView> {
    match a.focus {
        Focus::Ffmpeg => seq![EffectView::Save { key: "ffmpeg"@, val: a.ffmpeg }],
        Focus::Server => seq![EffectView::Save { key: "daemon_addr"@, val: a.daemon_addr }],
        Focus::Token => seq![EffectView::Save { key: "token"@, val: a.token }],
        _ => seq![],
    }
}

/// The state without a focus.
pub open spec fn blurred(a: AppView) -> AppView {
    AppView { focus: Focus::Nowhere, ..a }
}

/// The state with the keyboard going to a field, its cursor at the end.
pub open spec fn focused_on(a: AppView, f: Focus) -> AppView {
    AppView { focus: f, edit_cursor: field_text(a, f).len() as int, ..a }
}

/// What is kept when the keyboard goes to a field.
pub open spec fn focus_effects(a: AppView, f: Focus) -> Seq<EffectView> {
    if a.focus != f {
        blur_effects(a)
    } else {
        seq![]
    }
}

/// The state after a character was typed into the field.
pub open spec fn typed_into(a: AppView, c: char) -> AppView {
    let s = field_text(a, a.focus);
    AppView {
        edit_cursor: smaller(a.edit_cursor + 1, usize::MAX as int),
        ..with_field_text(a, s.insert(smaller(a.edit_cursor, s.len() as int), c))
    }
}

/// The state after the character before the cursor was taken out.
pub open spec fn backspaced(a: AppView) -> AppView {
    let s = field_text(a, a.focus);
    if a.edit_cursor == 0 {
        a
    } else {
        AppView {
            edit_cursor: a.edit_cursor - 1,
            ..if a.edit_cursor <= s.len() {
                with_field_text(a, s.remove(a.edit_cursor - 1))
            } else {
                a
            }
        }
    }
}

/// The state after the character behind the cursor was taken out.
pub open spec fn deleted(a: AppView) -> AppView {
    let s = field_text(a, a.focus);
    if a.edit_cursor < s.len() {
        with_field_text(a, s.remove(a.edit_cursor))
    } else {
        a
    }
}

/// The field that the tabulator key goes to.
pub open spec fn next_focus(mode: Mode, connected: bool, f: Focus) -> Focus {
    if mode == Mode::Local {
        if f == Focus::Ffmpeg {
            Focus::Src
        } else {
            Focus::Ffmpeg
        }
    } else if connected {
        Focus::Src
    } else if f == Focus::Server {
        Focus::Token
    } else if f == Focus::Token {
        Focus::Src
    } else {
        Focus::Server
    }
}

// ---------------------------------------------------------------- leaving
/// The name of a mode, as it is kept.
pub open spec fn mode_name(m: Mode) -> Seq<char> {
    match m {
        Mode::Daemon => "daemon"@,
        Mode::Local => "local"@,
    }
}

/// Everything that is kept when the program ends.
pub open spec fn all_saved(a: AppView) -> Seq<EffectView> {
    seq![
        EffectView::Save { key: "ffmpeg"@, val: a.ffmpeg },
        EffectView::Save { key: "codec"@, val: codec_at(a.codec_idx).spec_label() },
        EffectView::Save { key: "mode"@, val: mode_name(a.mode) },
        EffectView::Save { key: "daemon_addr"@, val: a.daemon_addr },
        EffectView::Save { key: "token"@, val: a.token },
    ]
}

/// Whether leaving needs to be confirmed.
pub open spec fn must_confirm(a: AppView, s: SessionView) -> bool {
    a.mode == Mode::Local && count_running(s.slots) > 0
}

/// What a wish to leave does.
pub open spec fn quit_step(a: AppView, s: SessionView) -> Step {
    if must_confirm(a, s) {
        Step { app: AppView { confirm_exit: true, ..a }, session: s, effects: seq![] }
    } else {
        Step { app: AppView { should_quit: true, ..a }, session: s, effects: all_saved(a) }
    }
}

/// The effects that tell the ffmpegs of some slots to stop.
pub open spec fn quit_keys(slots: Seq<int>) -> Seq<EffectView> {
    Seq::new(slots.len(), |i: int| EffectView::Feed { slot: slots[i], keys: "q"@ })
}

/// What the confirmation to leave does.
pub open spec fn confirmed_step(a: AppView, s: SessionView) -> Step {
    Step {
        app: AppView { confirm_exit: false, closing: true, ..a },
        session: SessionView { cancel: true, ..s },
        effects: quit_keys(running_among(s.slots, SLOTS as int)),
    }
}

// ---------------------------------------------------------------- keys for ffmpeg
/// The effects of sending a key to a slot's ffmpeg, here or at the daemon.
pub open spec fn key_effects(a: AppView, s: SessionView, slot: int, key: Seq<char>) -> Seq<
    EffectView,
> {
    if a.mode == Mode::Daemon {
        match s.slots[slot].job_id {
            Some(j) => if a.connected {
                seq![EffectView::TellKey { job_id: j, key }]
            } else {
                seq![]
            },
            None => seq![],
        }
    } else {
        seq![EffectView::Feed { slot, keys: key }]
    }
}

// ---------------------------------------------------------------- the explorer
/// What marking the entry at a position does.
pub open spec fn toggle_effects(pl: Platform, ex: ExplorerView, i: int) -> Seq<EffectView> {
    seq![
        EffectView::Toggle {
            path: joined(pl, ex.cwd, ex.entries[i].0),
            is_dir: ex.entries[i].1,
        },
    ]
}

/// What choosing in the explorer does.
pub open spec fn choose_step(a: AppView, s: SessionView, ex: ExplorerView) -> Step {
    let closed = AppView { explorer: None, ..a };
    if ex.kind == ExKind::Dir {
        Step { app: AppView { src_dir: ex.cwd, ..closed }, session: s, effects: seq![] }
    } else if ex.selected < ex.entries.len() && !ex.entries[ex.selected].1 {
        let p = joined(a.platform, ex.cwd, ex.entries[ex.selected].0);
        Step {
            app: AppView { ffmpeg: p, ..closed },
            session: s,
            effects: seq![EffectView::Save { key: "ffmpeg"@, val: p }],
        }
    } else {
        Step { app: closed, session: s, effects: seq![] }
    }
}

/// What going into the folder at a position does.
pub open spec fn enter_step(a: AppView, s: SessionView, ex: ExplorerView, i: int) -> Step {
    let cwd = joined(a.platform, ex.cwd, ex.entries[i].0);
    Step {
        app: AppView { explorer: Some(ExplorerView { cwd, ..ex }), ..a },
        session: s,
        effects: seq![EffectView::List { dir: cwd }],
    }
}

/// What going to the folder above does.
pub open spec fn up_step(a: AppView, s: SessionView, ex: ExplorerView) -> Step {
    match parent_of(a.platform, ex.cwd) {
        Some(p) => Step {
            app: AppView { explorer: Some(ExplorerView { cwd: p, ..ex }), ..a },
            session: s,
            effects: seq![EffectView::List { dir: p }],
        },
        None => only_app(a, s),
    }
}

/// The client's own state changes, if anything, and nothing is to be done.
pub open spec fn only_app(a: AppView, s: SessionView) -> Step {
    Step { app: a, session: s, effects: seq![] }
}

// ---------------------------------------------------------------- clicks
/// Whether something belongs to the explorer.
pub open spec fn is_explorer_elem(id: ElemId) -> bool {
    match id {
        ElemId::ExRow(_) => true,
        ElemId::ExCheck(_) => true,
        ElemId::ExUp => true,
        ElemId::ExOpen => true,
        ElemId::ExCancel => true,
        _ => false,
    }
}

/// Whether a click is ignored, because something else has the screen.
pub open spec fn is_blocked(a: AppView, id: ElemId) -> bool {
    ||| a.explorer is Some && !is_explorer_elem(id)
    ||| a.confirm_exit && id != ElemId::ConfirmYes && id != ElemId::ConfirmNo
}

/// The effects that tell the daemon to cancel jobs.
pub open spec fn cancel_effects(ids: Seq<Seq<char>>) -> Seq<EffectView> {
    Seq::new(ids.len(), |i: int| EffectView::TellCancel { job_id: ids[i] })
}

/// What a click does to a screen that is not taken. `ids` are the daemon's jobs.
pub open spec fn click_step(
    a: AppView,
    s: SessionView,
    ids: Seq<Seq<char>>,
    id: ElemId,
) -> Step {
    match id {
        ElemId::TitleClose => quit_step(a, s),
        ElemId::ModeLocal => Step {
            app: AppView { mode: Mode::Local, ..a },
            session: s,
            effects: seq![EffectView::Save { key: "mode"@, val: "local"@ }],
        },
        ElemId::ModeRemote => Step {
            app: AppView { mode: Mode::Daemon, ..a },
            session: s,
            effects: seq![EffectView::Save { key: "mode"@, val: "daemon"@ }],
        },
        ElemId::FieldFfmpeg => focus_step(a, s, Focus::Ffmpeg),
        ElemId::FieldServer => focus_step(a, s, Focus::Server),
        ElemId::FieldToken => focus_step(a, s, Focus::Token),
        ElemId::FieldSrc => focus_step(a, s, Focus::Src),
        ElemId::BrowseFfmpeg => Step {
            app: blurred(a),
            session: s,
            effects: blur_effects(a) + seq![
                EffectView::Browse { kind: ExKind::File, start: a.ffmpeg },
            ],
        },
        ElemId::BrowseSrc => Step {
            app: blurred(a),
            session: s,
            effects: blur_effects(a) + seq![
                EffectView::Browse { kind: ExKind::Dir, start: a.src_dir },
            ],
        },
        ElemId::ConnectBtn => Step {
            app: blurred(a),
            session: s,
            effects: blur_effects(a) + if a.connected {
                seq![EffectView::Disconnect]
            } else {
                seq![
                    EffectView::Save { key: "daemon_addr"@, val: a.daemon_addr },
                    EffectView::Save { key: "token"@, val: a.token },
                    EffectView::Connect,
                ]
            },
        },
        ElemId::Play => Step {
            app: blurred(a),
            session: s,
            effects: blur_effects(a) + seq![EffectView::Start],
        },
        ElemId::Stop => if a.mode == Mode::Daemon {
            Step {
                app: a,
                session: SessionView { running: false, ..s },
                effects: if a.connected {
                    cancel_effects(ids)
                } else {
                    seq![]
                },
            }
        } else {
            Step { app: a, session: SessionView { cancel: true, ..s }, effects: seq![] }
        },
        ElemId::Crop(m) => only_app(
            AppView {
                crop: match m {
                    1 => CropMode::Centered,
                    2 => CropMode::OneThird,
                    _ => CropMode::NoCrop,
                },
                ..a
            },
            s,
        ),
        ElemId::Codec(i) => Step {
            app: AppView { codec_idx: i as int, ..a },
            session: s,
            effects: seq![
                EffectView::Save { key: "codec"@, val: codec_at(i as int).spec_label() },
            ],
        },
        ElemId::Encoders(n) => Step {
            app: AppView { parallel: n as int, ..a },
            session: SessionView { target: n as int, ..s },
            effects: if a.mode == Mode::Daemon && a.connected {
                seq![EffectView::TellParallel { n: n as int }]
            } else {
                seq![]
            },
        },
        ElemId::Preset(i) => only_app(AppView { preset_idx: i as int, ..a }, s),
        ElemId::Bitrate(i) => only_app(AppView { bitrate_idx: i as int, ..a }, s),
        ElemId::Tab(i) => only_app(AppView { selected_tab: i as int, ..a }, s),
        ElemId::KeyZone => Step {
            app: AppView { focus: Focus::KeyZone, ..a },
            session: s,
            effects: blur_effects(a),
        },
        ElemId::KeyBtn(b) => Step {
            app: a,
            session: s,
            effects: key_effects(a, s, a.selected_tab, seq![b as char]),
        },
        ElemId::ExRow(i) => match a.explorer {
            Some(ex) => if i >= ex.entries.len() {
                only_app(a, s)
            } else if ex.entries[i as int].1 {
                enter_step(a, s, ex, i as int)
            } else {
                Step {
                    app: AppView {
                        explorer: Some(ExplorerView { selected: i as int, ..ex }),
                        ..a
                    },
                    session: s,
                    effects: if ex.kind == ExKind::Dir {
                        toggle_effects(a.platform, ex, i as int)
                    } else {
                        seq![]
                    },
                }
            },
            None => only_app(a, s),
        },
        ElemId::ExCheck(i) => match a.explorer {
            Some(ex) => if i >= ex.entries.len() {
                only_app(a, s)
            } else {
                Step {
                    app: AppView {
                        explorer: Some(ExplorerView { selected: i as int, ..ex }),
                        ..a
                    },
                    session: s,
                    effects: toggle_effects(a.platform, ex, i as int),
                }
            },
            None => only_app(a, s),
        },
        ElemId::ExUp => match a.explorer {
            Some(ex) => up_step(a, s, ex),
            None => only_app(a, s),
        },
        ElemId::ExOpen => match a.explorer {
            Some(ex) => choose_step(a, s, ex),
            None => only_app(a, s),
        },
        ElemId::ExCancel => only_app(AppView { explorer: None, ..a }, s),
        ElemId::ConfirmYes => confirmed_step(a, s),
        ElemId::ConfirmNo => only_app(AppView { confirm_exit: false, ..a }, s),
    }
}

/// What a click on a field does.
pub open spec fn focus_step(a: AppView, s: SessionView, f: Focus) -> Step {
    Step { app: focused_on(a, f), session: s, effects: focus_effects(a, f) }
}

/// What a click does.
pub open spec fn clicked(a: AppView, s: SessionView, ids: Seq<Seq<char>>, id: ElemId) -> Step {
    if is_blocked(a, id) {
        only_app(a, s)
    } else {
        click_step(a, s, ids, id)
    }
}

/// Whether something that can be clicked exists.
pub open spec fn elem_exists(id: ElemId) -> bool {
    match id {
        ElemId::Codec(i) => i < 3,
        ElemId::Encoders(n) => n >= 1,
        ElemId::Preset(i) => i < 7,
        ElemId::Bitrate(i) => i < 4,
        ElemId::Tab(i) => i < SLOTS,
        _ => true,
    }
}

/// Whether something is one of the choices that only the client keeps.
pub open spec fn is_choice(id: ElemId) -> bool {
    match id {
        ElemId::ModeLocal => true,
        ElemId::ModeRemote => true,
        ElemId::Crop(_) => true,
        ElemId::Codec(_) => true,
        ElemId::Preset(_) => true,
        ElemId::Bitrate(_) => true,
        ElemId::Tab(_) => true,
        _ => false,
    }
}

/// Whether something is a button or a field.
pub open spec fn is_button(id: ElemId) -> bool {
    match id {
        ElemId::FieldFfmpeg => true,
        ElemId::FieldServer => true,
        ElemId::FieldToken => true,
        ElemId::FieldSrc => true,
        ElemId::BrowseFfmpeg => true,
        ElemId::BrowseSrc => true,
        ElemId::ConnectBtn => true,
        ElemId::Play => true,
        ElemId::KeyZone => true,
        ElemId::KeyBtn(_) => true,
        _ => false,
    }
}

/// Whether a step led to a state, with some effects.
pub open spec fn is_step(st: Step, a: AppView, s: SessionView, e: Seq<Effect>) -> bool {
    st.app == a && st.session == s && st.effects == effects_of(e)
}

// ---------------------------------------------------------------- executable parts
pub(crate) fn save(key: &str, val: &str) -> (r: Effect)
    ensures
        r@ == (EffectView::Save { key: key@, val: val@ }),
{
    Effect::Save { key: key.to_string(), val: val.to_string() }
}

/// Appends an effect.
pub(crate) fn add_effect(v: &mut Vec<Effect>, e: Effect)
    ensures
        effects_of(final(v)@) == effects_of(old(v)@).push(e@),
{
    let ghost before = effects_of(v@);
    v.push(e);
    assert(effects_of(v@) =~= before.push(e@));
}

pub(crate) fn no_effects() -> (r: Vec<Effect>)
    ensures
        effects_of(r@) == Seq::<EffectView>::empty(),
{
    let r: Vec<Effect> = Vec::new();
    assert(effects_of(r@) =~= Seq::<EffectView>::empty());
    r
}

/// The codec at a position.
pub fn codec_of(i: usize) -> (r: Codec)
    requires
        i < 3,
    ensures
        r == codec_at(i as int),
{
    CODECS[i]
}

/// The name of a preset.
pub fn preset_of_idx(i: usize) -> (r: &'static str)
    requires
        i < 7,
    ensures
        r@ == preset_name(i as int),
{
    PRESETS[i]
}

pub(crate) fn is_text_field(f: Focus) -> (r: bool)
    ensures
        r == is_field(f),
{
    f == Focus::Ffmpeg || f == Focus::Server || f == Focus::Token || f == Focus::Src
}

/// Whether something belongs to the explorer.
pub fn is_explorer_id(id: ElemId) -> (r: bool)
    ensures
        r == is_explorer_elem(id),
{
    match id {
        ElemId::ExRow(_) => true,
        ElemId::ExCheck(_) => true,
        ElemId::ExUp => true,
        ElemId::ExOpen => true,
        ElemId::ExCancel => true,
        _ => false,
    }
}

impl App {
    pub open spec fn view(&self) -> AppView {
        AppView {
            platform: self.platform,
            mode: self.mode,
            ffmpeg: self.ffmpeg@,
            daemon_addr: self.daemon_addr@,
            token: self.token@,
            src_dir: self.src_dir@,
            crop: self.crop,
            parallel: self.parallel as int,
            preset_idx: self.preset_idx as int,
            bitrate_idx: self.bitrate_idx as int,
            codec_idx: self.codec_idx as int,
            connected: self.connected,
            job_counter: self.job_counter as int,
            files: texts(self.files@),
            excluded: self.excluded@,
            excluded_dirs: self.excluded_dirs@,
            selected_tab: self.selected_tab as int,
            status_msg: self.status_msg@,
            needs_scan: self.needs_scan,
            hover: self.hover,
            focus: self.focus,
            edit_cursor: self.edit_cursor as int,
            cmd_scroll: self.cmd_scroll as int,
            explorer: match self.explorer {
                Some(e) => Some(e@),
                None => None,
            },
            confirm_exit: self.confirm_exit,
            closing: self.closing,
            should_quit: self.should_quit,
        }
    }

    /// Every choice is one of those there are.
    pub open spec fn wf(&self) -> bool {
        &&& self.parallel >= 1
        &&& self.preset_idx < 7
        &&& self.bitrate_idx < 4
        &&& self.codec_idx < 3
        &&& self.selected_tab < SLOTS
        &&& self.excluded.wf()
        &&& self.excluded_dirs.wf()
    }

    /// The text of the field that has the keyboard.
    pub(crate) fn focused_text(&self) -> (r: Vec<char>)
        ensures
            r@ == field_text(self@, self@.focus),
    {
        match self.focus {
            Focus::Ffmpeg => chars_of(self.ffmpeg.as_str()),
            Focus::Server => chars_of(self.daemon_addr.as_str()),
            Focus::Token => chars_of(self.token.as_str()),
            Focus::Src => chars_of(self.src_dir.as_str()),
            _ => chars_of(""),
        }
    }

    /// Puts another text in the field that has the keyboard.
    fn set_focused_text(&mut self, s: String)
        requires
            old(self).wf(),
        ensures
            final(self).wf(),
            final(self)@ == with_field_text(old(self)@, s@),
    {
        match self.focus {
            Focus::Ffmpeg => {
                self.ffmpeg = s;
            },
            Focus::Server => {
                self.daemon_addr = s;
            },
            Focus::Token => {
                self.token = s;
            },
            Focus::Src => {
                self.src_dir = s;
            },
            _ => {},
        }
    }

    /// Takes the keyboard away from the field that has it, and keeps the field.
    pub fn blur(&mut self) -> (r: Vec<Effect>)
        requires
            old(self).wf(),
        ensures
            final(self).wf(),
            final(self)@ == blurred(old(self)@),
            effects_of(r@) == blur_effects(old(self)@),
    {
        let mut r = no_effects();
        match self.focus {
            Focus::Ffmpeg => {
                add_effect(&mut r, save("ffmpeg", self.ffmpeg.as_str()));
            },
            Focus::Server => {
                add_effect(&mut r, save("daemon_addr", self.daemon_addr.as_str()));
            },
            Focus::Token => {
                add_effect(&mut r, save("token", self.token.as_str()));
            },
            _ => {},
        }
        self.focus = Focus::Nowhere;
        assert(effects_of(r@) =~= blur_effects(old(self)@));
        r
    }

    /// Gives the keyboard to a field.
    pub fn focus_field(&mut self, f: Focus) -> (r: Vec<Effect>)
        requires
            old(self).wf(),
        ensures
            final(self).wf(),
            final(self)@ == focused_on(old(self)@, f),
            effects_of(r@) == focus_effects(old(self)@, f),
    {
        let mut r = no_effects();
        if self.focus != f {
            r = self.blur();
        }
        self.focus = f;
        self.edit_cursor = self.focused_text().len();
        assert(self@ =~= focused_on(old(self)@, f));
        assert(effects_of(r@) =~= focus_effects(old(self)@, f));
        r
    }

    pub(crate) fn field_insert(&mut self, c: char)
        requires
            old(self).wf(),
        ensures
            final(self).wf(),
            final(self)@ == typed_into(old(self)@, c),
    {
        let mut v = self.focused_text();
        let n = v.len();
        let at: usize = if self.edit_cursor < n {
            self.edit_cursor
        } else {
            n
        };
        v.insert(at, c);
        self.set_focused_text(string_of(v.as_slice()));
        if self.edit_cursor < usize::MAX {
            self.edit_cursor = self.edit_cursor + 1;
        }
        assert(self@ =~= typed_into(old(self)@, c));
    }

    pub(crate) fn field_backspace(&mut self)
        requires
            old(self).wf(),
        ensures
            final(self).wf(),
            final(self)@ == backspaced(old(self)@),
    {
        let cur = self.edit_cursor;
        if cur == 0 {
            return ;
        }
        let mut v = self.focused_text();
        if cur <= v.len() {
            let gone = v.remove(cur - 1);
            self.set_focused_text(string_of(v.as_slice()));
        }
        self.edit_cursor = cur - 1;
        assert(self@ =~= backspaced(old(self)@));
    }

    pub(crate) fn field_delete(&mut self)
        requires
            old(self).wf(),
        ensures
            final(self).wf(),
            final(self)@ == deleted(old(self)@),
    {
        let cur = self.edit_cursor;
        let mut v = self.focused_text();
        if cur < v.len() {
            let gone = v.remove(cur);
            self.set_focused_text(string_of(v.as_slice()));
        }
        assert(self@ =~= deleted(old(self)@));
    }

    /// The field that the tabulator key goes to.
    pub(crate) fn cycle_focus(&mut self) -> (r: Vec<Effect>)
        requires
            old(self).wf(),
        ensures
            final(self).wf(),
            final(self)@ == focused_on(
                old(self)@,
                next_focus(old(self)@.mode, old(self)@.connected, old(self)@.focus),
            ),
            effects_of(r@) == focus_effects(
                old(self)@,
                next_focus(old(self)@.mode, old(self)@.connected, old(self)@.focus),
            ),
    {
        let f = if self.mode == Mode::Local {
            if self.focus == Focus::Ffmpeg {
                Focus::Src
            } else {
                Focus::Ffmpeg
            }
        } else if self.connected {
            Focus::Src
        } else if self.focus == Focus::Server {
            Focus::Token
        } else if self.focus == Focus::Token {
            Focus::Src
        } else {
            Focus::Server
        };
        self.focus_field(f)
    }

    /// Everything that is kept when the program ends.
    pub fn persist_all(&self) -> (r: Vec<Effect>)
        requires
            self.wf(),
        ensures
            effects_of(r@) == all_saved(self@),
    {
        let mut r = no_effects();
        add_effect(&mut r, save("ffmpeg", self.ffmpeg.as_str()));
        add_effect(&mut r, save("codec", codec_of(self.codec_idx).label()));
        add_effect(
            &mut r,
            save(
                "mode",
                match self.mode {
                    Mode::Daemon => "daemon",
                    Mode::Local => "local",
                },
            ),
        );
        add_effect(&mut r, save("daemon_addr", self.daemon_addr.as_str()));
        add_effect(&mut r, save("token", self.token.as_str()));
        assert(effects_of(r@) =~= all_saved(self@));
        r
    }

    /// The user wishes to leave.
    pub fn request_quit(&mut self, s: &Session) -> (r: Vec<Effect>)
        requires
            old(self).wf(),
            s.wf(),
        ensures
            final(self).wf(),
            final(self)@ == quit_step(old(self)@, s@).app,
            effects_of(r@) == quit_step(old(self)@, s@).effects,
    {
        if self.mode == Mode::Local && s.running_count() > 0 {
            self.confirm_exit = true;
            no_effects()
        } else {
            let r = self.persist_all();
            self.should_quit = true;
            r
        }
    }

    /// The user has confirmed that they wish to leave.
    pub(crate) fn confirm_quit(&mut self, s: &mut Session) -> (r: Vec<Effect>)
        requires
            old(self).wf(),
            old(s).wf(),
        ensures
            final(self).wf(),
            final(s).wf(),
            final(s).platform() == old(s).platform(),
            final(self)@ == confirmed_step(old(self)@, old(s)@).app,
            final(s)@ == confirmed_step(old(self)@, old(s)@).session,
            effects_of(r@) == confirmed_step(old(self)@, old(s)@).effects,
    {
        let slots = s.send_quit_all();
        let ghost want = quit_keys(places(slots@));
        let mut r = no_effects();
        assert(effects_of(r@) =~= want.take(0));
        let mut i: usize = 0;
        while i < slots.len()
            invariant
                i <= slots@.len(),
                want == quit_keys(places(slots@)),
                effects_of(r@) == want.take(i as int),
            decreases slots@.len() - i,
        {
            add_effect(&mut r, Effect::Feed { slot: slots[i], keys: "q".to_string() });
            assert(want.take(i + 1) =~= want.take(i as int).push(want[i as int]));
            i += 1;
        }
        assert(want.take(slots@.len() as int) =~= want);
        self.confirm_exit = false;
        self.closing = true;
        r
    }

    /// Sends a key to a slot's ffmpeg.
    pub fn daemon_key(&self, s: &Session, slot: usize, key: &str) -> (r: Vec<Effect>)
        requires
            s.wf(),
            slot < SLOTS,
        ensures
            effects_of(r@) == key_effects(self@, s@, slot as int, key@),
    {
        let mut r = no_effects();
        if self.mode == Mode::Daemon {
            match &s.slot(slot).job_id {
                Some(j) => {
                    if self.connected {
                        add_effect(
                            &mut r,
                            Effect::TellKey { job_id: j.clone(), key: key.to_string() },
                        );
                    }
                },
                None => {},
            }
        } else {
            add_effect(&mut r, Effect::Feed { slot, keys: key.to_string() });
        }
        assert(effects_of(r@) =~= key_effects(self@, s@, slot as int, key@));
        r
    }

    /// Sets how many files may be encoded at once.
    pub fn set_parallel(&mut self, s: &mut Session, n: usize) -> (r: Vec<Effect>)
        requires
            old(self).wf(),
            old(s).wf(),
            n >= 1,
        ensures
            final(self).wf(),
            final(s).wf(),
            final(s).platform() == old(s).platform(),
            final(self)@ == (AppView { parallel: n as int, ..old(self)@ }),
            final(s)@ == (SessionView { target: n as int, ..old(s)@ }),
            effects_of(r@) == if old(self)@.mode == Mode::Daemon && old(self)@.connected {
                seq![EffectView::TellParallel { n: n as int }]
            } else {
                Seq::<EffectView>::empty()
            },
    {
        self.parallel = n;
        s.set_target(n);
        let mut r = no_effects();
        if self.mode == Mode::Daemon && self.connected {
            add_effect(&mut r, Effect::TellParallel { n });
            assert(effects_of(r@) =~= seq![EffectView::TellParallel { n: n as int }]);
        }
        r
    }

    /// Stops everything: cancels the daemon's jobs, or the local ones.
    fn stop(&mut self, s: &mut Session) -> (r: Vec<Effect>)
        requires
            old(self).wf(),
            old(s).wf(),
        ensures
            final(self)@ == old(self)@,
            final(self).wf(),
            final(s).wf(),
            final(s).platform() == old(s).platform(),
            final(s)@ == click_step(old(self)@, old(s)@, old(s).job_order(), ElemId::Stop).session,
            effects_of(r@) == click_step(
                old(self)@,
                old(s)@,
                old(s).job_order(),
                ElemId::Stop,
            ).effects,
    {
        let mut r = no_effects();
        if self.mode == Mode::Daemon {
            if self.connected {
                let ids = s.job_ids();
                let ghost want = cancel_effects(s.job_order());
                assert(effects_of(r@) =~= want.take(0));
                let mut i: usize = 0;
                while i < ids.len()
                    invariant
                        i <= ids@.len(),
                        want == cancel_effects(texts(ids@)),
                        effects_of(r@) == want.take(i as int),
                    decreases ids@.len() - i,
                {
                    add_effect(&mut r, Effect::TellCancel { job_id: ids[i].clone() });
                    assert(want.take(i + 1) =~= want.take(i as int).push(want[i as int]));
                    i += 1;
                }
                assert(want.take(ids@.len() as int) =~= want);
            }
            s.set_running(false);
        } else {
            s.request_cancel();
        }
        r
    }

    /// Takes the folder or the file that the explorer shows as the choice.
    pub(crate) fn explorer_confirm(&mut self, s: &Session) -> (r: Vec<Effect>)
        requires
            old(self).wf(),
            s.wf(),
        ensures
            final(self).wf(),
            is_step(
                click_step(old(self)@, s@, s.job_order(), ElemId::ExOpen),
                final(self)@,
                s@,
                r@,
            ),
    {
        let mut r = no_effects();
        let ghost a = self@;
        match self.explorer.take() {
            None => {
                assert(self@ =~= a);
            },
            Some(ex) => {
                if ex.kind == ExKind::Dir {
                    self.src_dir = ex.cwd;
                } else if ex.selected < ex.entries.len() && !ex.entries[ex.selected].1 {
                    let p = join(
                        self.platform,
                        ex.cwd.as_str(),
                        ex.entries[ex.selected].0.as_str(),
                    );
                    add_effect(&mut r, save("ffmpeg", p.as_str()));
                    assert(effects_of(r@) =~= seq![
                        EffectView::Save { key: "ffmpeg"@, val: p@ },
                    ]);
                    self.ffmpeg = p;
                }
            },
        }
        r
    }

    /// Does what a click on one of the choices asks for.
    #[verifier::spinoff_prover]
    #[verifier::rlimit(50)]
    fn click_choice(&mut self, s: &Session, id: ElemId) -> (r: Vec<Effect>)
        requires
            old(self).wf(),
            s.wf(),
            elem_exists(id),
            is_choice(id),
        ensures
            final(self).wf(),
            is_step(click_step(old(self)@, s@, s.job_order(), id), final(self)@, s@, r@),
    {
        let ghost st = click_step(self@, s@, s.job_order(), id);
        let mut r = no_effects();
        match id {
            ElemId::ModeLocal => {
                self.mode = Mode::Local;
                add_effect(&mut r, save("mode", "local"));
                assert(effects_of(r@) =~= st.effects);
            },
            ElemId::ModeRemote => {
                self.mode = Mode::Daemon;
                add_effect(&mut r, save("mode", "daemon"));
                assert(effects_of(r@) =~= st.effects);
            },
            ElemId::Crop(m) => {
                self.crop = crop_from(m);
                assert(effects_of(r@) =~= st.effects);
            },
            ElemId::Codec(i) => {
                self.codec_idx = i;
                add_effect(&mut r, save("codec", codec_of(i).label()));
                assert(effects_of(r@) =~= st.effects);
            },
            ElemId::Preset(i) => {
                self.preset_idx = i;
                assert(effects_of(r@) =~= st.effects);
            },
            ElemId::Bitrate(i) => {
                self.bitrate_idx = i;
                assert(effects_of(r@) =~= st.effects);
            },
            ElemId::Tab(i) => {
                self.selected_tab = i;
                assert(effects_of(r@) =~= st.effects);
            },
            _ => {},
        }
        r
    }

    /// Does what a click on a button or a field asks for.
    #[verifier::spinoff_prover]
    #[verifier::rlimit(50)]
    fn click_button(&mut self, s: &Session, id: ElemId) -> (r: Vec<Effect>)
        requires
            old(self).wf(),
            s.wf(),
            is_button(id),
        ensures
            final(self).wf(),
            is_step(click_step(old(self)@, s@, s.job_order(), id), final(self)@, s@, r@),
    {
        let ghost st = click_step(self@, s@, s.job_order(), id);
        let mut r = no_effects();
        match id {
            ElemId::FieldFfmpeg => {
                r = self.focus_field(Focus::Ffmpeg);
                assert(effects_of(r@) =~= st.effects);
            },
            ElemId::FieldServer => {
                r = self.focus_field(Focus::Server);
                assert(effects_of(r@) =~= st.effects);
            },
            ElemId::FieldToken => {
                r = self.focus_field(Focus::Token);
                assert(effects_of(r@) =~= st.effects);
            },
            ElemId::FieldSrc => {
                r = self.focus_field(Focus::Src);
                assert(effects_of(r@) =~= st.effects);
            },
            ElemId::BrowseFfmpeg => {
                r = self.blur();
                let start = self.ffmpeg.clone();
                add_effect(&mut r, Effect::Browse { kind: ExKind::File, start });
                assert(effects_of(r@) =~= st.effects);
            },
            ElemId::BrowseSrc => {
                r = self.blur();
                let start = self.src_dir.clone();
                add_effect(&mut r, Effect::Browse { kind: ExKind::Dir, start });
                assert(effects_of(r@) =~= st.effects);
            },
            ElemId::ConnectBtn => {
                r = self.blur();
                if self.connected {
                    add_effect(&mut r, Effect::Disconnect);
                } else {
                    add_effect(&mut r, save("daemon_addr", self.daemon_addr.as_str()));
                    add_effect(&mut r, save("token", self.token.as_str()));
                    add_effect(&mut r, Effect::Connect);
                }
                assert(effects_of(r@) =~= st.effects);
            },
            ElemId::Play => {
                r = self.blur();
                add_effect(&mut r, Effect::Start);
                assert(effects_of(r@) =~= st.effects);
            },
            ElemId::KeyZone => {
                r = self.blur();
                self.focus = Focus::KeyZone;
                assert(effects_of(r@) =~= st.effects);
            },
            ElemId::KeyBtn(b) => {
                let mut key = String::new();
                key.push(b as char);
                assert(key@ =~= seq![b as char]);
                r = self.daemon_key(s, self.selected_tab, key.as_str());
                assert(effects_of(r@) =~= st.effects);
            },
            _ => {},
        }
        r
    }

    /// Does what a click on something asks for.
    #[verifier::spinoff_prover]
    #[verifier::rlimit(50)]
    pub fn dispatch(&mut self, s: &mut Session, id: ElemId) -> (r: Vec<Effect>)
        requires
            old(self).wf(),
            old(s).wf(),
            elem_exists(id),
        ensures
            final(self).wf(),
            final(s).wf(),
            final(s).platform() == old(s).platform(),
            final(self)@ == clicked(old(self)@, old(s)@, old(s).job_order(), id).app,
            final(s)@ == clicked(old(self)@, old(s)@, old(s).job_order(), id).session,
            effects_of(r@) == clicked(old(self)@, old(s)@, old(s).job_order(), id).effects,
    {
        let ghost st = click_step(self@, s@, s.job_order(), id);
        if self.explorer.is_some() && !is_explorer_id(id) {
            return no_effects();
        }
        if self.confirm_exit && !(id == ElemId::ConfirmYes || id == ElemId::ConfirmNo) {
            return no_effects();
        }
        match id {
            ElemId::TitleClose => self.request_quit(s),
            ElemId::Stop => self.stop(s),
            ElemId::ExRow(i) => self.click_row(s, i),
            ElemId::ExCheck(i) => self.click_check(s, i),
            ElemId::ExUp => self.explorer_up(s),
            ElemId::ExOpen => self.explorer_confirm(s),
            ElemId::ExCancel => {
                self.explorer = None;
                assert(self@ =~= st.app);
                no_effects()
            },
            ElemId::ConfirmYes => self.confirm_quit(s),
            ElemId::ConfirmNo => {
                self.confirm_exit = false;
                assert(self@ =~= st.app);
                no_effects()
            },
            ElemId::ModeLocal => self.click_choice(s, id),
            ElemId::ModeRemote => self.click_choice(s, id),
            ElemId::Crop(_) => self.click_choice(s, id),
            ElemId::Codec(_) => self.click_choice(s, id),
            ElemId::Encoders(n) => self.set_parallel(s, n),
            ElemId::Preset(_) => self.click_choice(s, id),
            ElemId::Bitrate(_) => self.click_choice(s, id),
            ElemId::Tab(_) => self.click_choice(s, id),
            ElemId::FieldFfmpeg => self.click_button(s, id),
            ElemId::FieldServer => self.click_button(s, id),
            ElemId::FieldToken => self.click_button(s, id),
            ElemId::FieldSrc => self.click_button(s, id),
            ElemId::BrowseFfmpeg => self.click_button(s, id),
            ElemId::BrowseSrc => self.click_button(s, id),
            ElemId::ConnectBtn => self.click_button(s, id),
            ElemId::Play => self.click_button(s, id),
            ElemId::KeyZone => self.click_button(s, id),
            ElemId::KeyBtn(_) => self.click_button(s, id),
        }
    }

    /// Marks the entry at a position of the explorer.
    pub(crate) fn toggle_effect(&self, ex: &Explorer, i: usize) -> (r: Effect)
        requires
            i < ex.entries@.len(),
        ensures
            r@ == toggle_effects(self@.platform, ex@, i as int)[0],
    {
        Effect::Toggle {
            path: join(self.platform, ex.cwd.as_str(), ex.entries[i].0.as_str()),
            is_dir: ex.entries[i].1,
        }
    }

    pub(crate) fn click_row(&mut self, s: &Session, i: usize) -> (r: Vec<Effect>)
        requires
            old(self).wf(),
            s.wf(),
        ensures
            final(self).wf(),
            is_step(
                click_step(old(self)@, s@, s.job_order(), ElemId::ExRow(i)),
                final(self)@,
                s@,
                r@,
            ),
    {
        let mut r = no_effects();
        let ghost a = self@;
        match self.explorer.take() {
            None => {},
            Some(mut ex) => {
                let ghost e0 = ex@;
                if i < ex.entries.len() {
                    if ex.entries[i].1 {
                        let moved = ex.enter(self.platform, i);
                        add_effect(&mut r, Effect::List { dir: ex.cwd.clone() });
                    } else {
                        if ex.kind == ExKind::Dir {
                            add_effect(&mut r, self.toggle_effect(&ex, i));
                        }
                        ex.selected = i;
                    }
                }
                self.explorer = Some(ex);
            },
        }
        proof {
            let st = click_step(a, s@, s.job_order(), ElemId::ExRow(i));
            assert(effects_of(r@) =~= st.effects);
            assert(self@.explorer =~= st.app.explorer);
        }
        r
    }

    fn click_check(&mut self, s: &Session, i: usize) -> (r: Vec<Effect>)
        requires
            old(self).wf(),
            s.wf(),
        ensures
            final(self).wf(),
            is_step(
                click_step(old(self)@, s@, s.job_order(), ElemId::ExCheck(i)),
                final(self)@,
                s@,
                r@,
            ),
    {
        let mut r = no_effects();
        let ghost a = self@;
        match self.explorer.take() {
            None => {},
            Some(mut ex) => {
                if i < ex.entries.len() {
                    add_effect(&mut r, self.toggle_effect(&ex, i));
                    ex.selected = i;
                }
                self.explorer = Some(ex);
            },
        }
        proof {
            let st = click_step(a, s@, s.job_order(), ElemId::ExCheck(i));
            assert(effects_of(r@) =~= st.effects);
            assert(self@.explorer =~= st.app.explorer);
        }
        r
    }

    pub(crate) fn explorer_up(&mut self, s: &Session) -> (r: Vec<Effect>)
        requires
            old(self).wf(),
            s.wf(),
        ensures
            final(self).wf(),
            is_step(
                click_step(old(self)@, s@, s.job_order(), ElemId::ExUp),
                final(self)@,
                s@,
                r@,
            ),
    {
        let mut r = no_effects();
        let ghost a = self@;
        match self.explorer.take() {
            None => {},
            Some(mut ex) => {
                if ex.go_up(self.platform) {
                    add_effect(&mut r, Effect::List { dir: ex.cwd.clone() });
                }
                self.explorer = Some(ex);
            },
        }
        proof {
            let st = click_step(a, s@, s.job_order(), ElemId::ExUp);
            assert(effects_of(r@) =~= st.effects);
            assert(self@.explorer =~= st.app.explorer);
        }
        r
    }
}

// ---------------------------------------------------------------- laws
/// The seven presets are p1 to p7, and the three codecs are in their order.
pub proof fn presets_are_numbered(i: int)
    requires
        0 <= i < 7,
    ensures
        preset_name(i) == "p"@ + dec(i + 1),
        codec_at(0) == Codec::H264,
        codec_at(1) == Codec::H265,
        codec_at(2) == Codec::Av1,
{
    reveal_strlit("p");
    reveal_strlit("p1");
    reveal_strlit("p2");
    reveal_strlit("p3");
    reveal_strlit("p4");
    reveal_strlit("p5");
    reveal_strlit("p6");
    reveal_strlit("p7");
    crate::number::digits_count_in_tens(0, i + 1);
    assert(preset_name(i) =~= "p"@ + dec(i + 1));
}

/// Whether the fields of two states are the same.
pub open spec fn same_fields(a: AppView, b: AppView) -> bool {
    a.ffmpeg == b.ffmpeg && a.daemon_addr == b.daemon_addr && a.token == b.token && a.src_dir
        == b.src_dir
}

/// A character goes in at the cursor, which moves behind it; what stands before and
/// behind it stays, and so does every other field.
pub proof fn typing_goes_in_at_the_cursor(a: AppView, c: char)
    requires
        is_field(a.focus),
        0 <= a.edit_cursor <= field_text(a, a.focus).len(),
        a.edit_cursor < usize::MAX,
    ensures
        ({
            let s = field_text(a, a.focus);
            let b = typed_into(a, c);
            &&& field_text(b, a.focus) == s.take(a.edit_cursor) + seq![c] + s.skip(a.edit_cursor)
            &&& b.edit_cursor == a.edit_cursor + 1
            &&& b.focus == a.focus
            &&& a.focus != Focus::Ffmpeg ==> b.ffmpeg == a.ffmpeg
            &&& a.focus != Focus::Server ==> b.daemon_addr == a.daemon_addr
            &&& a.focus != Focus::Token ==> b.token == a.token
            &&& a.focus != Focus::Src ==> b.src_dir == a.src_dir
        }),
{
    let s = field_text(a, a.focus);
    assert(s.insert(a.edit_cursor, c) =~= s.take(a.edit_cursor) + seq![c] + s.skip(a.edit_cursor));
}

/// The delete key takes out the character behind the cursor, and backspace the one
/// before it.
pub proof fn characters_are_taken_out_at_the_cursor(a: AppView)
    requires
        is_field(a.focus),
        0 <= a.edit_cursor <= field_text(a, a.focus).len(),
    ensures
        ({
            let s = field_text(a, a.focus);
            let k = a.edit_cursor;
            &&& k < s.len() ==> field_text(deleted(a), a.focus) == s.take(k) + s.skip(k + 1)
                && deleted(a).edit_cursor == k
            &&& k == s.len() ==> deleted(a) == a
            &&& k > 0 ==> field_text(backspaced(a), a.focus) == s.take(k - 1) + s.skip(k)
                && backspaced(a).edit_cursor == k - 1
            &&& k == 0 ==> backspaced(a) == a
        }),
{
    let s = field_text(a, a.focus);
    let k = a.edit_cursor;
    if k < s.len() {
        assert(s.remove(k) =~= s.take(k) + s.skip(k + 1));
    }
    if k > 0 {
        assert(s.remove(k - 1) =~= s.take(k - 1) + s.skip(k));
    }
}

/// The fields are those of the settings they are named after; the keyboard comes to
/// the end of a field, and the field that it leaves is kept.
pub proof fn fields_are_their_settings(a: AppView, f: Focus)
    ensures
        field_text(a, Focus::Ffmpeg) == a.ffmpeg,
        field_text(a, Focus::Server) == a.daemon_addr,
        field_text(a, Focus::Token) == a.token,
        field_text(a, Focus::Src) == a.src_dir,
        is_field(f) <==> f == Focus::Ffmpeg || f == Focus::Server || f == Focus::Token || f
            == Focus::Src,
        focused_on(a, f).focus == f,
        focused_on(a, f).edit_cursor == field_text(a, f).len(),
        same_fields(focused_on(a, f), a),
        blurred(a).focus == Focus::Nowhere,
        same_fields(blurred(a), a),
        a.focus == Focus::Ffmpeg ==> blur_effects(a) == seq![
            EffectView::Save { key: "ffmpeg"@, val: a.ffmpeg },
        ],
        a.focus == Focus::Server ==> blur_effects(a) == seq![
            EffectView::Save { key: "daemon_addr"@, val: a.daemon_addr },
        ],
        a.focus == Focus::Token ==> blur_effects(a) == seq![
            EffectView::Save { key: "token"@, val: a.token },
        ],
        a.focus == Focus::Src || a.focus == Focus::Nowhere || a.focus == Focus::KeyZone
            ==> blur_effects(a).len() == 0,
        a.focus == f ==> focus_effects(a, f).len() == 0,
        a.focus != f ==> focus_effects(a, f) == blur_effects(a),
{
}

/// The tabulator key goes round the fields that are shown: ffmpeg and the folder here,
/// the server, the token and the folder where there is no connection yet, and the
/// folder alone where there is one.
pub proof fn tabulator_goes_round(connected: bool, f: Focus)
    ensures
        next_focus(Mode::Local, connected, Focus::Ffmpeg) == Focus::Src,
        f != Focus::Ffmpeg ==> next_focus(Mode::Local, connected, f) == Focus::Ffmpeg,
        next_focus(Mode::Daemon, false, Focus::Server) == Focus::Token,
        next_focus(Mode::Daemon, false, Focus::Token) == Focus::Src,
        f != Focus::Server && f != Focus::Token ==> next_focus(Mode::Daemon, false, f)
            == Focus::Server,
        next_focus(Mode::Daemon, true, f) == Focus::Src,
{
}

/// Five settings are kept when the client ends, each under its own name.
pub proof fn all_settings_are_kept(a: AppView)
    ensures
        all_saved(a).len() == 5,
        all_saved(a).contains(EffectView::Save { key: "ffmpeg"@, val: a.ffmpeg }),
        all_saved(a).contains(
            EffectView::Save { key: "codec"@, val: codec_at(a.codec_idx).spec_label() },
        ),
        all_saved(a).contains(EffectView::Save { key: "daemon_addr"@, val: a.daemon_addr }),
        all_saved(a).contains(EffectView::Save { key: "token"@, val: a.token }),
        a.mode == Mode::Local ==> all_saved(a).contains(
            EffectView::Save { key: "mode"@, val: "local"@ },
        ),
        a.mode == Mode::Daemon ==> all_saved(a).contains(
            EffectView::Save { key: "mode"@, val: "daemon"@ },
        ),
{
    let s = all_saved(a);
    assert(s[0] == (EffectView::Save { key: "ffmpeg"@, val: a.ffmpeg }));
    assert(s[1] == (EffectView::Save { key: "codec"@, val: codec_at(a.codec_idx).spec_label() }));
    assert(s[2] == (EffectView::Save { key: "mode"@, val: mode_name(a.mode) }));
    assert(s[3] == (EffectView::Save { key: "daemon_addr"@, val: a.daemon_addr }));
    assert(s[4] == (EffectView::Save { key: "token"@, val: a.token }));
}

/// Leaving ends the client at once and keeps its settings, unless local files are
/// encoded: then it asks, and once that is confirmed tells every ffmpeg that runs to
/// stop, and starts nothing more.
pub proof fn leaving_waits_for_local_files(a: AppView, s: SessionView)
    ensures
        a.mode == Mode::Local && count_running(s.slots) > 0 ==> quit_step(a, s) == (Step {
            app: AppView { confirm_exit: true, ..a },
            session: s,
            effects: Seq::<EffectView>::empty(),
        }),
        a.mode == Mode::Daemon || count_running(s.slots) == 0 ==> quit_step(a, s).app.should_quit
            && quit_step(a, s).effects == all_saved(a) && quit_step(a, s).session == s,
        confirmed_step(a, s).app.closing,
        !confirmed_step(a, s).app.confirm_exit,
        confirmed_step(a, s).session.cancel,
        confirmed_step(a, s).effects.len() == running_among(s.slots, 4).len(),
        forall|i: int|
            0 <= i < confirmed_step(a, s).effects.len() ==> #[trigger] confirmed_step(
                a,
                s,
            ).effects[i] == (EffectView::Feed { slot: running_among(s.slots, 4)[i], keys: "q"@ }),
{
}

/// A key goes to the ffmpeg of a slot: here to the slot itself, and at a daemon that
/// is connected to the job that the slot shows.
pub proof fn keys_reach_their_ffmpeg(a: AppView, s: SessionView, slot: int, key: Seq<char>)
    ensures
        a.mode == Mode::Local ==> key_effects(a, s, slot, key) == seq![
            EffectView::Feed { slot, keys: key },
        ],
        a.mode == Mode::Daemon && a.connected ==> (s.slots[slot].job_id matches Some(j)
            ==> key_effects(a, s, slot, key) == seq![EffectView::TellKey { job_id: j, key }]),
        a.mode == Mode::Daemon && (!a.connected || s.slots[slot].job_id is None) ==> key_effects(
            a,
            s,
            slot,
            key,
        ).len() == 0,
{
}

/// A click on a choice makes it, and changes nothing else: the mode, the crop, the
/// codec, the preset, the rates and the tab that is shown.
pub proof fn choices_are_made(a: AppView, s: SessionView, ids: Seq<Seq<char>>, i: usize)
    requires
        a.explorer is None,
        !a.confirm_exit,
    ensures
        clicked(a, s, ids, ElemId::ModeLocal).app == (AppView { mode: Mode::Local, ..a }),
        clicked(a, s, ids, ElemId::ModeLocal).effects == seq![
            EffectView::Save { key: "mode"@, val: "local"@ },
        ],
        clicked(a, s, ids, ElemId::ModeRemote).app == (AppView { mode: Mode::Daemon, ..a }),
        clicked(a, s, ids, ElemId::ModeRemote).effects == seq![
            EffectView::Save { key: "mode"@, val: "daemon"@ },
        ],
        clicked(a, s, ids, ElemId::Crop(1)).app == (AppView { crop: CropMode::Centered, ..a }),
        clicked(a, s, ids, ElemId::Crop(2)).app == (AppView { crop: CropMode::OneThird, ..a }),
        clicked(a, s, ids, ElemId::Crop(3)).app == (AppView { crop: CropMode::NoCrop, ..a }),
        clicked(a, s, ids, ElemId::Codec(i)).app == (AppView { codec_idx: i as int, ..a }),
        clicked(a, s, ids, ElemId::Codec(i)).effects == seq![
            EffectView::Save { key: "codec"@, val: codec_at(i as int).spec_label() },
        ],
        clicked(a, s, ids, ElemId::Preset(i)).app == (AppView { preset_idx: i as int, ..a }),
        clicked(a, s, ids, ElemId::Bitrate(i)).app == (AppView { bitrate_idx: i as int, ..a }),
        clicked(a, s, ids, ElemId::Tab(i)).app == (AppView { selected_tab: i as int, ..a }),
        clicked(a, s, ids, ElemId::Encoders(i)).app == (AppView { parallel: i as int, ..a }),
        clicked(a, s, ids, ElemId::Encoders(i)).session == (SessionView { target: i as int, ..s }),
        a.mode == Mode::Daemon && a.connected ==> clicked(a, s, ids, ElemId::Encoders(i)).effects
            == seq![EffectView::TellParallel { n: i as int }],
        a.mode == Mode::Local || !a.connected ==> clicked(a, s, ids, ElemId::Encoders(i)).effects.len()
            == 0,
        clicked(a, s, ids, ElemId::Crop(1)).effects.len() == 0,
        clicked(a, s, ids, ElemId::Preset(i)).effects.len() == 0,
        clicked(a, s, ids, ElemId::Bitrate(i)).effects.len() == 0,
{
}

/// A click on a button does what it says: it starts, stops, connects, browses, or gives
/// a field the keyboard. Stopping cancels every job of the daemon, or the local files.
pub proof fn buttons_do_what_they_say(a: AppView, s: SessionView, ids: Seq<Seq<char>>, b: u8)
    requires
        a.explorer is None,
        !a.confirm_exit,
    ensures
        clicked(a, s, ids, ElemId::Play).effects == blur_effects(a) + seq![EffectView::Start],
        clicked(a, s, ids, ElemId::Play).app == blurred(a),
        a.mode == Mode::Local ==> clicked(a, s, ids, ElemId::Stop).session == (SessionView {
            cancel: true,
            ..s
        }) && clicked(a, s, ids, ElemId::Stop).effects.len() == 0,
        a.mode == Mode::Daemon ==> clicked(a, s, ids, ElemId::Stop).session == (SessionView {
            running: false,
            ..s
        }),
        a.mode == Mode::Daemon && a.connected ==> clicked(a, s, ids, ElemId::Stop).effects.len()
            == ids.len() && forall|i: int|
            0 <= i < ids.len() ==> #[trigger] clicked(a, s, ids, ElemId::Stop).effects[i] == (
            EffectView::TellCancel { job_id: ids[i] }),
        a.connected ==> clicked(a, s, ids, ElemId::ConnectBtn).effects.last() is Disconnect,
        !a.connected ==> clicked(a, s, ids, ElemId::ConnectBtn).effects == blur_effects(a) + seq![
            EffectView::Save { key: "daemon_addr"@, val: a.daemon_addr },
            EffectView::Save { key: "token"@, val: a.token },
            EffectView::Connect,
        ],
        clicked(a, s, ids, ElemId::BrowseFfmpeg).effects.last() == (EffectView::Browse {
            kind: ExKind::File,
            start: a.ffmpeg,
        }),
        clicked(a, s, ids, ElemId::BrowseSrc).effects.last() == (EffectView::Browse {
            kind: ExKind::Dir,
            start: a.src_dir,
        }),
        clicked(a, s, ids, ElemId::FieldFfmpeg).app == focused_on(a, Focus::Ffmpeg),
        clicked(a, s, ids, ElemId::FieldServer).app == focused_on(a, Focus::Server),
        clicked(a, s, ids, ElemId::FieldToken).app == focused_on(a, Focus::Token),
        clicked(a, s, ids, ElemId::FieldSrc).app == focused_on(a, Focus::Src),
        clicked(a, s, ids, ElemId::KeyZone).app.focus == Focus::KeyZone,
        clicked(a, s, ids, ElemId::KeyBtn(b)).effects == key_effects(
            a,
            s,
            a.selected_tab,
            seq![b as char],
        ),
        clicked(a, s, ids, ElemId::TitleClose) == quit_step(a, s),
{
}

/// While the client asks whether to leave, nothing but the two answers can be clicked,
/// and while the explorer is open nothing but the explorer.
pub proof fn dialogs_take_all_clicks(a: AppView, s: SessionView, ids: Seq<Seq<char>>, id: ElemId)
    ensures
        a.confirm_exit && id != ElemId::ConfirmYes && id != ElemId::ConfirmNo ==> clicked(
            a,
            s,
            ids,
            id,
        ) == (Step { app: a, session: s, effects: Seq::<EffectView>::empty() }),
        a.explorer is Some && (id is Play || id is Stop || id is ConnectBtn || id is TitleClose
            || id is ModeLocal || id is ModeRemote || id is Tab || id is Codec || id is Preset || id
            is Bitrate || id is Crop || id is Encoders || id is KeyBtn || id is KeyZone || id
            is FieldSrc || id is FieldToken || id is FieldServer || id is FieldFfmpeg || id
            is BrowseSrc || id is BrowseFfmpeg || id is ConfirmYes || id is ConfirmNo) ==> clicked(
            a,
            s,
            ids,
            id,
        ) == (Step { app: a, session: s, effects: Seq::<EffectView>::empty() }),
        a.explorer is None && a.confirm_exit ==> clicked(a, s, ids, ElemId::ConfirmYes)
            == confirmed_step(a, s) && clicked(a, s, ids, ElemId::ConfirmNo) == (Step {
            app: AppView { confirm_exit: false, ..a },
            session: s,
            effects: Seq::<EffectView>::empty(),
        }),
{
}

/// In the explorer a click goes into a folder, or marks a file where a folder is to be
/// picked; its buttons go up, take what is shown, or close it.
pub proof fn explorer_follows_the_clicks(
    a: AppView,
    s: SessionView,
    ids: Seq<Seq<char>>,
    i: usize,
)
    requires
        a.explorer is Some,
        !a.confirm_exit,
        i < a.explorer->Some_0.entries.len(),
    ensures
        ({
            let ex = a.explorer->Some_0;
            let path = joined(a.platform, ex.cwd, ex.entries[i as int].0);
            let row = clicked(a, s, ids, ElemId::ExRow(i));
            let check = clicked(a, s, ids, ElemId::ExCheck(i));
            let up = clicked(a, s, ids, ElemId::ExUp);
            let open = clicked(a, s, ids, ElemId::ExOpen);
            &&& ex.entries[i as int].1 ==> row.effects == seq![EffectView::List { dir: path }] && (
            row.app.explorer matches Some(e) && e.cwd == path)
            &&& !ex.entries[i as int].1 && ex.kind == ExKind::Dir ==> row.effects == seq![
                EffectView::Toggle { path, is_dir: false },
            ]
            &&& !ex.entries[i as int].1 && ex.kind == ExKind::File ==> row.effects.len() == 0 && (
            row.app.explorer matches Some(e) && e.selected == i)
            &&& check.effects == seq![
                EffectView::Toggle { path, is_dir: ex.entries[i as int].1 },
            ]
            &&& parent_of(a.platform, ex.cwd) matches Some(p) ==> up.effects == seq![
                EffectView::List { dir: p },
            ] && (up.app.explorer matches Some(e) && e.cwd == p)
            &&& parent_of(a.platform, ex.cwd) is None ==> up.app == a && up.effects.len() == 0
            &&& ex.kind == ExKind::Dir ==> open.app == (AppView {
                src_dir: ex.cwd,
                explorer: None,
                ..a
            }) && open.effects.len() == 0
            &&& ex.kind == ExKind::File && ex.selected == i && !ex.entries[i as int].1
                ==> open.app.ffmpeg == path && open.app.explorer is None && open.effects == seq![
                EffectView::Save { key: "ffmpeg"@, val: path },
            ]
            &&& clicked(a, s, ids, ElemId::ExCancel).app == (AppView { explorer: None, ..a })
        }),
{
}

} // verus!
