//! An encoder slot: what one of the places where jobs run shows.
use vstd::prelude::*;
use vstd::string::*;
use crate::encoder::{blank_summary, StreamSummary, SummaryView};
use crate::number::{dec_int, print_i64};
use crate::progress::{Progress, ProgressView};
use crate::text::concat2;

verus! {

/// How many slots there are.
pub const SLOTS: usize = 4;

/// What a slot is doing.
#[derive(Clone, Copy, PartialEq, Eq, Structural, Debug)]
pub enum SlotState {
    Idle,
    Running,
    /// Its last job failed, with this code.
    Fail(i32),
}

impl SlotState {
    /// The state, as it is shown.
    pub open spec fn spec_label(self) -> Seq<char> {
        match self {
            SlotState::Idle => "idle"@,
            SlotState::Running => "running"@,
            SlotState::Fail(c) => "FAIL "@ + dec_int(c as int),
        }
    }

    /// The state, as it is shown.
    pub fn label(&self) -> (r: String)
        ensures
            r@ == self.spec_label(),
    {
        match self {
            SlotState::Idle => "idle".to_string(),
            SlotState::Running => "running".to_string(),
            SlotState::Fail(c) => concat2("FAIL ", print_i64(*c as i64).as_str()),
        }
    }
}

/// A slot.
pub struct Slot {
    pub state: SlotState,
    /// The file in progress, or the last one.
    pub name: String,
    pub info: String,
    pub cmdline: String,
    /// What ffmpeg wrote.
    pub output: String,
    pub streams: StreamSummary,
    pub target: StreamSummary,
    pub progress: Option<Progress>,
    pub pid: Option<u32>,
    /// The daemon's job that the slot shows.
    pub job_id: Option<String>,
}

/// The contents of a [`Slot`].
#[verifier::ext_equal]
pub struct SlotView {
    pub state: SlotState,
    pub name: Seq<char>,
    pub info: Seq<char>,
    pub cmdline: Seq<char>,
    pub output: Seq<char>,
    pub streams: SummaryView,
    pub target: SummaryView,
    pub progress: Option<ProgressView>,
    pub pid: Option<u32>,
    pub job_id: Option<Seq<char>>,
}

/// A slot that does nothing.
pub open spec fn idle_slot() -> SlotView {
    SlotView {
        state: SlotState::Idle,
        name: ""@,
        info: ""@,
        cmdline: ""@,
        output: ""@,
        streams: blank_summary(),
        target: blank_summary(),
        progress: None,
        pid: None,
        job_id: None,
    }
}

impl Slot {
    pub open spec fn view(&self) -> SlotView {
        SlotView {
            state: self.state,
            name: self.name@,
            info: self.info@,
            cmdline: self.cmdline@,
            output: self.output@,
            streams: self.streams@,
            target: self.target@,
            progress: match self.progress {
                Some(p) => Some(p@),
                None => None,
            },
            pid: self.pid,
            job_id: match self.job_id {
                Some(j) => Some(j@),
                None => None,
            },
        }
    }

    pub open spec fn wf(&self) -> bool {
        &&& self.streams.wf()
        &&& self.target.wf()
        &&& self.progress matches Some(p) ==> p.wf()
    }

    /// A slot that does nothing.
    pub fn new() -> (r: Slot)
        ensures
            r.wf(),
            r@ == idle_slot(),
    {
        Slot {
            state: SlotState::Idle,
            name: "".to_string(),
            info: "".to_string(),
            cmdline: "".to_string(),
            output: "".to_string(),
            streams: StreamSummary::blank(),
            target: StreamSummary::blank(),
            progress: None,
            pid: None,
            job_id: None,
        }
    }

    /// Forgets everything about the last job.
    pub fn reset(&mut self)
        ensures
            final(self).wf(),
            final(self)@ == idle_slot(),
    {
        *self = Slot::new();
    }
}

/// There are four slots, and each says what it is doing.
pub proof fn slots_say_what_they_do(c: i32)
    ensures
        SLOTS == 4,
        SlotState::Idle.spec_label() == "idle"@,
        SlotState::Running.spec_label() == "running"@,
        SlotState::Fail(c).spec_label() == "FAIL "@ + dec_int(c as int),
        idle_slot().state == SlotState::Idle,
        idle_slot().progress is None,
        idle_slot().job_id is None,
        idle_slot().pid is None,
        idle_slot().output == ""@,
        idle_slot().name == ""@,
{
}

} // verus!
