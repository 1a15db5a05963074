//! What the desktop client shows, and when its window closes.
use vstd::prelude::*;
use vstd::string::*;
use crate::app::{
    all_saved, effects_of, no_effects, App, AppView, Effect, EffectView, Mode,
};
use crate::encoder::StreamSummary;
use crate::decimal::Decimal;
use crate::format::{eta_of, fmt_eta, share_done, share_of};
use crate::number::{dec, print_u64};
use crate::panel::{blank_progress, elapsed_text, progress_in, value_text};
use crate::progress::Progress;
use crate::session::{count_running, Session, SessionView};
use crate::slot::{Slot, SlotState, SlotView};
use crate::text::{chars_of, concat2, concat3, string_of, sub_chars, text_in};
use crate::ui::Tone;

verus! {

// ---------------------------------------------------------------- the window
/// Whether a window that is asked to close may do so.
pub open spec fn window_may_close(a: AppView, s: SessionView) -> bool {
    a.should_quit || (!a.closing && count_running(s.slots) == 0)
}

impl App {
    /// The window is asked to close. The settings are kept; while files are
    /// encoded the window stays, and the user is asked. Tells what is to be done,
    /// and whether the window closes.
    pub fn window_close(&mut self, s: &Session) -> (r: (Vec<Effect>, bool))
        requires
            old(self).wf(),
            s.wf(),
        ensures
            final(self).wf(),
            r.1 == window_may_close(old(self)@, s@),
            final(self)@ == (AppView {
                confirm_exit: old(self)@.confirm_exit || (!old(self)@.closing && !r.1),
                ..old(self)@
            }),
            effects_of(r.0@) == if old(self)@.should_quit {
                Seq::<EffectView>::empty()
            } else {
                all_saved(old(self)@)
            },
    {
        if self.should_quit {
            return (no_effects(), true);
        }
        let kept = self.persist_all();
        if self.closing {
            (kept, false)
        } else if s.running_count() > 0 {
            self.confirm_exit = true;
            (kept, false)
        } else {
            (kept, true)
        }
    }

    /// How much waits: the daemon's jobs, or the files in the queue.
    pub fn pending(&self, s: &Session) -> (r: usize)
        requires
            s.wf(),
        ensures
            r == if self@.mode == Mode::Daemon {
                s@.files.dom().len() as int
            } else {
                s@.queue.len() as int
            },
    {
        if self.mode == Mode::Daemon {
            s.job_count()
        } else {
            s.queue_count()
        }
    }
}

/// The question whether to leave.
pub fn quit_question(running: usize) -> (r: String)
    ensures
        r@ == "There are "@ + dec(running as int)
            + " ffmpeg process(es) running. If you quit they'll be closed cleanly (Q) — it may take a few seconds."@,
{
    concat3(
        "There are ",
        print_u64(running as u64).as_str(),
        " ffmpeg process(es) running. If you quit they'll be closed cleanly (Q) — it may take a few seconds.",
    )
}

/// The notice that the client is closing.
pub fn closing_notice(running: usize) -> (r: String)
    ensures
        r@ == "Waiting for "@ + dec(running as int)
            + " process(es) to close (Q, clean shutdown)…"@,
{
    concat3(
        "Waiting for ",
        print_u64(running as u64).as_str(),
        " process(es) to close (Q, clean shutdown)…",
    )
}

// ---------------------------------------------------------------- the slot
/// A name and a value, in a colour.
pub struct Fact {
    pub key: String,
    pub value: String,
    pub tone: Tone,
}

/// The contents of a [`Fact`].
pub struct FactView {
    pub key: Seq<char>,
    pub value: Seq<char>,
    pub tone: Tone,
}

impl Fact {
    pub open spec fn view(&self) -> FactView {
        FactView { key: self.key@, value: self.value@, tone: self.tone }
    }
}

/// The contents of some facts.
pub open spec fn facts_of(v: Seq<Fact>) -> Seq<FactView> {
    Seq::new(v.len(), |i: int| v[i]@)
}

/// A name with a colon, and a value; a dash where it is empty.
pub open spec fn fact_of(key: Seq<char>, value: Seq<char>, tone: Tone) -> FactView {
    FactView { key: key + ":"@, value: value_text(value), tone }
}

fn put_fact(v: &mut Vec<Fact>, key: &str, value: &str, tone: Tone)
    ensures
        facts_of(final(v)@) == facts_of(old(v)@).push(fact_of(key@, value@, tone)),
{
    let ghost before = facts_of(v@);
    let shown = if chars_of(value).len() == 0 {
        "—".to_string()
    } else {
        value.to_string()
    };
    v.push(Fact { key: concat2(key, ":"), value: shown, tone });
    assert(facts_of(v@) =~= before.push(fact_of(key@, value@, tone)));
}

/// What is shown of the video of a file. Its bitrate has a colour of its own.
pub fn video_facts(m: &StreamSummary, rate: Tone) -> (r: Vec<Fact>)
    ensures
        facts_of(r@) == seq![
            fact_of("Codec"@, m@.v_codec, Tone::Video),
            fact_of("Res"@, m@.v_res, Tone::Video),
            fact_of("FPS"@, m@.v_fps, Tone::Video),
            fact_of("Bits"@, m@.v_bits, Tone::Video),
            fact_of("Bitrate"@, m@.v_bitrate, rate),
            fact_of("Dur"@, m@.dur_str, Tone::Amber),
        ],
{
    let mut v: Vec<Fact> = Vec::new();
    assert(facts_of(v@) =~= Seq::<FactView>::empty());
    put_fact(&mut v, "Codec", m.v_codec.as_str(), Tone::Video);
    put_fact(&mut v, "Res", m.v_res.as_str(), Tone::Video);
    put_fact(&mut v, "FPS", m.v_fps.as_str(), Tone::Video);
    put_fact(&mut v, "Bits", m.v_bits.as_str(), Tone::Video);
    put_fact(&mut v, "Bitrate", m.v_bitrate.as_str(), rate);
    put_fact(&mut v, "Dur", m.dur_str.as_str(), Tone::Amber);
    v
}

/// What is shown of the audio of a file. Its bitrate has a colour of its own.
pub fn audio_facts(m: &StreamSummary, rate: Tone) -> (r: Vec<Fact>)
    ensures
        facts_of(r@) == seq![
            fact_of("Codec"@, m@.a_codec, Tone::Audio),
            fact_of("Channels"@, m@.a_layout, Tone::Audio),
            fact_of("Sample"@, m@.a_rate, Tone::Audio),
            fact_of("Bitrate"@, m@.a_bitrate, rate),
        ],
{
    let mut v: Vec<Fact> = Vec::new();
    assert(facts_of(v@) =~= Seq::<FactView>::empty());
    put_fact(&mut v, "Codec", m.a_codec.as_str(), Tone::Audio);
    put_fact(&mut v, "Channels", m.a_layout.as_str(), Tone::Audio);
    put_fact(&mut v, "Sample", m.a_rate.as_str(), Tone::Audio);
    put_fact(&mut v, "Bitrate", m.a_bitrate.as_str(), rate);
    v
}

/// How the encoding goes.
pub open spec fn progress_facts_of(s: SlotView) -> Seq<FactView> {
    let p = progress_in(s);
    seq![
        fact_of("Frame"@, p.frame, Tone::Val),
        fact_of("FPS"@, p.fps, Tone::Val),
        fact_of("Q"@, p.q, Tone::Val),
        fact_of("Size"@, p.size, Tone::Val),
        fact_of("Time"@, elapsed_text(p, s.streams.dur_str), Tone::Val),
        fact_of("Bitrate"@, p.bitrate, Tone::Val),
        fact_of("Speed"@, p.speed, Tone::Amber),
        fact_of("ETA"@, eta_of(s.streams.duration, p.time_sec, p.speed_val), Tone::Eta),
    ]
}

fn facts_with(s: &Slot, p: &Progress) -> (r: Vec<Fact>)
    requires
        s.wf(),
        p.wf(),
        p@ == progress_in(s@),
    ensures
        facts_of(r@) == progress_facts_of(s@),
{
    let eta = fmt_eta(&s.streams.duration, &p.time_sec, &p.speed_val);
    let done = if chars_of(p.time.as_str()).len() == 0 {
        "—".to_string()
    } else {
        p.time.clone()
    };
    let elapsed = concat3(done.as_str(), " / ", s.streams.dur_str.as_str());
    let mut v: Vec<Fact> = Vec::new();
    assert(facts_of(v@) =~= Seq::<FactView>::empty());
    put_fact(&mut v, "Frame", p.frame.as_str(), Tone::Val);
    put_fact(&mut v, "FPS", p.fps.as_str(), Tone::Val);
    put_fact(&mut v, "Q", p.q.as_str(), Tone::Val);
    put_fact(&mut v, "Size", p.size.as_str(), Tone::Val);
    put_fact(&mut v, "Time", elapsed.as_str(), Tone::Val);
    put_fact(&mut v, "Bitrate", p.bitrate.as_str(), Tone::Val);
    put_fact(&mut v, "Speed", p.speed.as_str(), Tone::Amber);
    put_fact(&mut v, "ETA", eta.as_str(), Tone::Eta);
    v
}

/// How the encoding goes, with the time that is left.
pub fn progress_facts(s: &Slot) -> (r: Vec<Fact>)
    requires
        s.wf(),
    ensures
        facts_of(r@) == progress_facts_of(s@),
{
    match &s.progress {
        Some(p) => facts_with(s, p),
        None => {
            let p = blank_progress();
            facts_with(s, &p)
        },
    }
}

/// How far the file in a slot is, from 0 to 1.
pub fn slot_done(s: &Slot) -> (r: Decimal)
    requires
        s.wf(),
    ensures
        r.wf(),
        r@ == share_of(progress_in(s@).time_sec, s@.streams.duration),
{
    match &s.progress {
        Some(p) => share_done(&p.time_sec, &s.streams.duration),
        None => {
            let p = blank_progress();
            share_done(&p.time_sec, &s.streams.duration)
        },
    }
}

/// What is shown around the facts of a slot.
pub struct Card {
    /// The file, or "idle".
    pub name: String,
    pub named: bool,
    /// The state, where it is worth telling.
    pub note: Option<String>,
    pub output: Option<String>,
    pub command: Option<String>,
    /// The facts and the keys are shown.
    pub active: bool,
    /// The end of what ffmpeg wrote, where it failed.
    pub problem: Option<String>,
}

/// The last characters of a text, at most 2000.
pub open spec fn last_2000(s: Seq<char>) -> Seq<char> {
    if s.len() > 2000 {
        s.skip(s.len() - 2000)
    } else {
        s
    }
}

/// Whether a card shows a slot.
pub open spec fn is_card(c: Card, s: SlotView) -> bool {
    &&& c.named == (s.name.len() > 0)
    &&& c.name@ == if c.named {
        s.name
    } else {
        "idle"@
    }
    &&& text_in(c.note) == if c.named && s.state != SlotState::Idle {
        Some(s.state.spec_label())
    } else {
        None
    }
    &&& text_in(c.output) == if c.named && s.info.len() > 0 {
        Some("Output: "@ + s.info)
    } else {
        None
    }
    &&& text_in(c.command) == if s.cmdline.len() > 0 {
        Some(s.cmdline)
    } else {
        None
    }
    &&& c.active == (s.state == SlotState::Running)
    &&& text_in(c.problem) == if s.state is Fail && s.output.len() > 0 {
        Some(last_2000(s.output))
    } else {
        None
    }
}

/// What is shown around the facts of a slot.
pub fn card(s: &Slot) -> (r: Card)
    ensures
        is_card(r, s@),
{
    let named = chars_of(s.name.as_str()).len() > 0;
    let out = chars_of(s.output.as_str());
    let n = out.len();
    let failed = match s.state {
        SlotState::Fail(_) => true,
        _ => false,
    };
    let problem = if failed && n > 0 {
        if n > 2000 {
            let t = sub_chars(out.as_slice(), n - 2000, n);
            assert(t@ =~= last_2000(s@.output));
            Some(string_of(t.as_slice()))
        } else {
            Some(s.output.clone())
        }
    } else {
        None
    };
    Card {
        name: if named {
            s.name.clone()
        } else {
            "idle".to_string()
        },
        named,
        note: if named && s.state != SlotState::Idle {
            Some(s.state.label())
        } else {
            None
        },
        output: if named && chars_of(s.info.as_str()).len() > 0 {
            Some(concat2("Output: ", s.info.as_str()))
        } else {
            None
        },
        command: if chars_of(s.cmdline.as_str()).len() > 0 {
            Some(s.cmdline.clone())
        } else {
            None
        },
        active: s.state == SlotState::Running,
        problem,
    }
}

// ---------------------------------------------------------------- laws
/// A window never closes over files that are being encoded, unless the client was
/// already told to quit.
pub proof fn window_waits_for_the_files(a: AppView, s: SessionView)
    requires
        !a.should_quit,
        count_running(s.slots) > 0,
    ensures
        !window_may_close(a, s),
{
}

/// The card of a slot shows its file, or that it is idle, its state where it has one,
/// and what ffmpeg wrote last where it failed: the end of it, up to 2000 characters.
pub proof fn card_shows_its_slot(c: Card, s: SlotView)
    requires
        is_card(c, s),
    ensures
        s.name.len() > 0 ==> c.named && c.name@ == s.name,
        s.name.len() == 0 ==> !c.named && c.name@ == "idle"@ && c.note is None && c.output is None,
        s.name.len() > 0 && s.state != SlotState::Idle ==> text_in(c.note) == Some(
            s.state.spec_label(),
        ),
        s.state == SlotState::Idle ==> c.note is None,
        s.name.len() > 0 && s.info.len() > 0 ==> text_in(c.output) == Some("Output: "@ + s.info),
        s.cmdline.len() > 0 ==> text_in(c.command) == Some(s.cmdline),
        s.cmdline.len() == 0 ==> c.command is None,
        c.active <==> s.state == SlotState::Running,
        !(s.state is Fail) || s.output.len() == 0 ==> c.problem is None,
        s.state is Fail && 0 < s.output.len() <= 2000 ==> text_in(c.problem) == Some(s.output),
        s.state is Fail && s.output.len() > 2000 ==> (text_in(c.problem) matches Some(t) && t.len()
            == 2000 && t == s.output.skip(s.output.len() - 2000)),
{
}

/// The facts of a slot show how its file goes, in their order, each with its name.
pub proof fn facts_show_how_it_goes(s: SlotView)
    requires
        s.progress is Some,
    ensures
        ({
            let p = s.progress->Some_0;
            let f = progress_facts_of(s);
            &&& f.len() == 8
            &&& f[0].key == "Frame"@ + ":"@ && f[1].key == "FPS"@ + ":"@ && f[2].key == "Q"@ + ":"@
            &&& f[3].key == "Size"@ + ":"@ && f[4].key == "Time"@ + ":"@ && f[5].key == "Bitrate"@
                + ":"@
            &&& f[6].key == "Speed"@ + ":"@ && f[7].key == "ETA"@ + ":"@
            &&& p.frame.len() > 0 ==> f[0].value == p.frame
            &&& p.fps.len() > 0 ==> f[1].value == p.fps
            &&& p.q.len() > 0 ==> f[2].value == p.q
            &&& p.size.len() > 0 ==> f[3].value == p.size
            &&& p.bitrate.len() > 0 ==> f[5].value == p.bitrate
            &&& p.speed.len() > 0 ==> f[6].value == p.speed
            &&& p.frame.len() == 0 ==> f[0].value == "—"@
            &&& eta_of(s.streams.duration, p.time_sec, p.speed_val).len() > 0 ==> f[7].value
                == eta_of(s.streams.duration, p.time_sec, p.speed_val)
        }),
{
}

/// A window closes where nothing is encoded, and where the client was told to quit.
pub proof fn idle_window_closes(a: AppView, s: SessionView)
    ensures
        a.should_quit ==> window_may_close(a, s),
        !a.should_quit && !a.closing && count_running(s.slots) == 0 ==> window_may_close(a, s),
        !a.should_quit && a.closing ==> !window_may_close(a, s),
{
}

} // verus!
