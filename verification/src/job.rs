//! The course of a job at the daemon: what is done at each turn, from the probe
//! to the end.
//!
//! Running the programs, sending and deleting are the caller's part: it performs
//! the steps in their order and reports what came of them.
use vstd::prelude::*;
use vstd::string::*;
use crate::server::{job_outcome, outcome_of, Begin, Exit};
use crate::text::concat2;

verus! {

/// How far a job is.
#[derive(Clone, Copy, PartialEq, Eq, Structural, Debug)]
pub enum Stage {
    /// Nothing has been done yet.
    Waiting,
    /// Its input is probed.
    Probing,
    /// ffmpeg is started.
    Launching,
    /// ffmpeg runs.
    Encoding,
    /// ffmpeg has ended; the last piece of the result may be on its way.
    Closing,
    /// Nothing more is done.
    Over,
}

/// What happened.
pub enum Turn {
    /// The job's turn came.
    Begun { begin: Begin },
    /// ffprobe could not read the input.
    ProbeFailed,
    /// The job was planned: where its output goes, the line that describes it,
    /// whether the result goes to the client while it is written, and whether
    /// the client is there.
    Planned { out: String, info: String, remote: bool, connected: bool },
    /// ffmpeg runs.
    Launched,
    /// ffmpeg could not be started, and why.
    LaunchFailed { why: String },
    /// ffmpeg ended.
    Ended { exit: Exit },
    /// The last piece of the result, if pieces are sent, has been sent. Whether
    /// the job was cancelled by then.
    Settled { cancelled: bool },
}

/// What is to be done.
pub enum Step {
    /// Tell the job's state.
    Tell { state: String, detail: String },
    /// Probe the input and plan the job.
    Probe,
    /// Tell the client what goes in and what comes out.
    TellStreams,
    /// Start ffmpeg.
    Launch,
    /// Send the result to the client while it is written.
    Stream,
    /// Send what is left of the result, and wait until the last piece is sent.
    FinishStream,
    /// Tell the client that the result has been sent, and whether it is whole.
    SendEnd { ok: bool },
    /// Delete the output.
    RemoveFile { path: String },
    /// Give the output's name free.
    Release { path: String },
    /// Delete the folder for outputs, if it is empty.
    RemoveFolder,
}

/// The contents of a [`Step`].
pub enum StepView {
    Tell { state: Seq<char>, detail: Seq<char> },
    Probe,
    TellStreams,
    Launch,
    Stream,
    FinishStream,
    SendEnd { ok: bool },
    RemoveFile { path: Seq<char> },
    Release { path: Seq<char> },
    RemoveFolder,
}

impl Step {
    pub open spec fn view(&self) -> StepView {
        match self {
            Step::Tell { state, detail } => StepView::Tell { state: state@, detail: detail@ },
            Step::Probe => StepView::Probe,
            Step::TellStreams => StepView::TellStreams,
            Step::Launch => StepView::Launch,
            Step::Stream => StepView::Stream,
            Step::FinishStream => StepView::FinishStream,
            Step::SendEnd { ok } => StepView::SendEnd { ok: *ok },
            Step::RemoveFile { path } => StepView::RemoveFile { path: path@ },
            Step::Release { path } => StepView::Release { path: path@ },
            Step::RemoveFolder => StepView::RemoveFolder,
        }
    }
}

/// The contents of some steps.
pub open spec fn steps_of(v: Seq<Step>) -> Seq<StepView> {
    Seq::new(v.len(), |i: int| v[i]@)
}

/// A job under way.
pub struct JobRun {
    stage: Stage,
    remote: bool,
    out: String,
    exit: Exit,
}

/// The state of a [`JobRun`].
#[verifier::ext_equal]
pub struct RunView {
    pub stage: Stage,
    /// Whether the result goes to the client while it is written.
    pub remote: bool,
    /// Where the output goes.
    pub out: Seq<char>,
    /// How ffmpeg ended.
    pub exit: Exit,
}

/// The step that tells a state.
pub open spec fn telling(state: Seq<char>, detail: Seq<char>) -> StepView {
    StepView::Tell { state, detail }
}

/// The last steps of a job: its state is told; where the result went to the
/// client while it was written, the client is told of its end behind the last
/// piece, and nothing is left behind.
pub open spec fn last_steps(
    remote: bool,
    out: Seq<char>,
    exit: Exit,
    cancelled: bool,
) -> Seq<StepView> {
    let o = outcome_of(exit, cancelled, out);
    if remote {
        seq![
            telling(o.0, o.1),
            StepView::SendEnd { ok: o.2 },
            StepView::RemoveFile { path: out },
            StepView::Release { path: out },
            StepView::RemoveFolder,
        ]
    } else {
        seq![telling(o.0, o.1)]
    }
}

/// A job after a turn, and what is done. A turn that cannot come at its stage
/// changes nothing.
pub open spec fn after_turn(r: RunView, t: Turn) -> (RunView, Seq<StepView>) {
    match (r.stage, t) {
        (Stage::Waiting, Turn::Begun { begin }) => match begin {
            Begin::Missing => (RunView { stage: Stage::Over, ..r }, seq![]),
            Begin::Cancelled => (
                RunView { stage: Stage::Over, ..r },
                seq![telling("cancelled"@, ""@)],
            ),
            Begin::Probe => (
                RunView { stage: Stage::Probing, ..r },
                seq![telling("probing"@, ""@), StepView::Probe],
            ),
        },
        (Stage::Probing, Turn::ProbeFailed) => (
            RunView { stage: Stage::Over, ..r },
            seq![telling("failed"@, "probe failed (ffprobe couldn't read the input)"@)],
        ),
        (Stage::Probing, Turn::Planned { out, info, remote, connected }) => (
            RunView { stage: Stage::Launching, remote, out: out@, ..r },
            (if connected {
                seq![StepView::TellStreams]
            } else {
                seq![]
            }) + seq![telling("encoding"@, info@), StepView::Launch],
        ),
        (Stage::Launching, Turn::LaunchFailed { why }) => (
            RunView { stage: Stage::Over, ..r },
            seq![telling("failed"@, "couldn't launch ffmpeg: "@ + why@)],
        ),
        (Stage::Launching, Turn::Launched) => (
            RunView { stage: Stage::Encoding, ..r },
            if r.remote {
                seq![StepView::Stream]
            } else {
                seq![]
            },
        ),
        (Stage::Encoding, Turn::Ended { exit }) => (
            RunView { stage: Stage::Closing, exit, ..r },
            seq![StepView::FinishStream],
        ),
        (Stage::Closing, Turn::Settled { cancelled }) => (
            RunView { stage: Stage::Over, ..r },
            last_steps(r.remote, r.out, r.exit, cancelled),
        ),
        _ => (r, seq![]),
    }
}

fn tell(state: &str, detail: &str) -> (r: Step)
    ensures
        r@ == telling(state@, detail@),
{
    Step::Tell { state: state.to_string(), detail: detail.to_string() }
}

/// What is done last.
fn finish(remote: bool, out: &str, exit: &Exit, cancelled: bool) -> (r: Vec<Step>)
    ensures
        steps_of(r@) == last_steps(remote, out@, *exit, cancelled),
{
    let o = job_outcome(exit, cancelled, out);
    let mut r: Vec<Step> = Vec::new();
    r.push(tell(o.state.as_str(), o.detail.as_str()));
    if remote {
        r.push(Step::SendEnd { ok: o.ok });
        r.push(Step::RemoveFile { path: out.to_string() });
        r.push(Step::Release { path: out.to_string() });
        r.push(Step::RemoveFolder);
    }
    assert(steps_of(r@) =~= last_steps(remote, out@, *exit, cancelled));
    r
}

impl JobRun {
    pub closed spec fn view(&self) -> RunView {
        RunView { stage: self.stage, remote: self.remote, out: self.out@, exit: self.exit }
    }

    /// A job whose turn has not come.
    pub fn new() -> (r: JobRun)
        ensures
            r@ == (RunView { stage: Stage::Waiting, remote: false, out: ""@, exit: Exit::Killed }),
    {
        JobRun { stage: Stage::Waiting, remote: false, out: "".to_string(), exit: Exit::Killed }
    }

    /// How far the job is.
    pub fn stage(&self) -> (r: Stage)
        ensures
            r == self@.stage,
    {
        self.stage
    }

    /// Takes a turn in and tells what is to be done.
    pub fn turn(&mut self, t: Turn) -> (r: Vec<Step>)
        ensures
            (final(self)@, steps_of(r@)) == after_turn(old(self)@, t),
    {
        let ghost was = self@;
        let mut r: Vec<Step> = Vec::new();
        match (self.stage, t) {
            (Stage::Waiting, Turn::Begun { begin }) => match begin {
                Begin::Missing => {
                    self.stage = Stage::Over;
                },
                Begin::Cancelled => {
                    self.stage = Stage::Over;
                    r.push(tell("cancelled", ""));
                },
                Begin::Probe => {
                    self.stage = Stage::Probing;
                    r.push(tell("probing", ""));
                    r.push(Step::Probe);
                },
            },
            (Stage::Probing, Turn::ProbeFailed) => {
                self.stage = Stage::Over;
                r.push(tell("failed", "probe failed (ffprobe couldn't read the input)"));
            },
            (Stage::Probing, Turn::Planned { out, info, remote, connected }) => {
                self.stage = Stage::Launching;
                self.remote = remote;
                self.out = out;
                if connected {
                    r.push(Step::TellStreams);
                }
                r.push(tell("encoding", info.as_str()));
                r.push(Step::Launch);
            },
            (Stage::Launching, Turn::LaunchFailed { why }) => {
                self.stage = Stage::Over;
                r.push(tell("failed", concat2("couldn't launch ffmpeg: ", why.as_str()).as_str()));
            },
            (Stage::Launching, Turn::Launched) => {
                self.stage = Stage::Encoding;
                if self.remote {
                    r.push(Step::Stream);
                }
            },
            (Stage::Encoding, Turn::Ended { exit }) => {
                self.stage = Stage::Closing;
                self.exit = exit;
                r.push(Step::FinishStream);
            },
            (Stage::Closing, Turn::Settled { cancelled }) => {
                self.stage = Stage::Over;
                r = finish(self.remote, self.out.as_str(), &self.exit, cancelled);
            },
            _ => {},
        }
        assert(steps_of(r@) =~= after_turn(was, t).1);
        assert(self@ =~= after_turn(was, t).0);
        r
    }
}

// ---------------------------------------------------------------- laws
/// A job after some turns, and all that was done.
pub open spec fn after_turns(r: RunView, ts: Seq<Turn>) -> (RunView, Seq<StepView>)
    decreases ts.len(),
{
    if ts.len() == 0 {
        (r, seq![])
    } else {
        let before = after_turns(r, ts.drop_last());
        let now = after_turn(before.0, ts.last());
        (now.0, before.1 + now.1)
    }
}

/// A job whose turn has not come.
pub open spec fn new_run() -> RunView {
    RunView { stage: Stage::Waiting, remote: false, out: ""@, exit: Exit::Killed }
}

/// Whether the end of a result is told of at `i` in a log, and rightly so.
spec fn is_end(r: RunView, log: Seq<StepView>, i: int) -> bool {
    &&& exists|j: int| 0 <= j < i && #[trigger] log[j] is FinishStream
    &&& forall|j: int|
        0 <= j < log.len() && (#[trigger] log[j] is Stream || log[j] is FinishStream) ==> j < i
    &&& log.len() == i + 4
    &&& log[i + 1] == (StepView::RemoveFile { path: r.out })
    &&& log[i + 2] == (StepView::Release { path: r.out })
    &&& log[i + 3] is RemoveFolder
}

/// Whether some steps hold none that tells of the end of a result.
spec fn has_no_end(steps: Seq<StepView>) -> bool {
    forall|i: int| 0 <= i < steps.len() ==> !(#[trigger] steps[i] is SendEnd)
}

/// What holds of a job and of all that was done.
spec fn is_course(r: RunView, log: Seq<StepView>) -> bool {
    &&& r.stage == Stage::Closing ==> log.len() > 0 && log.last() is FinishStream
    &&& r.stage != Stage::Over ==> has_no_end(log)
    &&& forall|i: int| 0 <= i < log.len() && #[trigger] log[i] is SendEnd ==> is_end(r, log, i)
}

proof fn lemma_turn(r: RunView, t: Turn)
    ensures
        ({
            let (now, steps) = after_turn(r, t);
            &&& r.stage == Stage::Over ==> now == r && steps.len() == 0
            &&& !(r.stage == Stage::Closing && t is Settled) ==> has_no_end(steps)
            &&& now.stage == Stage::Closing ==> (steps.len() == 1 && steps[0] is FinishStream) || (
            steps.len() == 0 && r.stage == Stage::Closing)
            &&& now.stage == Stage::Closing ==> has_no_end(steps)
        }),
{
}

proof fn lemma_last_steps(r: RunView, log: Seq<StepView>, cancelled: bool)
    requires
        is_course(r, log),
        r.stage == Stage::Closing,
    ensures
        is_course(
            RunView { stage: Stage::Over, ..r },
            log + last_steps(r.remote, r.out, r.exit, cancelled),
        ),
{
    let steps = last_steps(r.remote, r.out, r.exit, cancelled);
    let all = log + steps;
    let over = RunView { stage: Stage::Over, ..r };
    let n = log.len() as int;
    assert(all[n - 1] == log.last());
    assert forall|i: int| 0 <= i < all.len() && #[trigger] all[i] is SendEnd implies is_end(
        over,
        all,
        i,
    ) by {
        if i < n {
            assert(all[i] == log[i]);
        } else {
            assert(all[i] == steps[i - n]);
            assert(i == n + 1);
            assert(all[n + 2] == steps[2] && all[n + 3] == steps[3] && all[n + 4] == steps[4]);
            assert forall|j: int|
                0 <= j < all.len() && (#[trigger] all[j] is Stream || all[j] is FinishStream)
                implies j < i by {
                if j >= n {
                    assert(all[j] == steps[j - n]);
                }
            }
        }
    }
}

proof fn lemma_course_step(r: RunView, log: Seq<StepView>, t: Turn)
    requires
        is_course(r, log),
    ensures
        is_course(after_turn(r, t).0, log + after_turn(r, t).1),
{
    lemma_turn(r, t);
    let (now, steps) = after_turn(r, t);
    let all = log + steps;
    if r.stage == Stage::Over {
        assert(all =~= log);
    } else if r.stage == Stage::Closing && t is Settled {
        lemma_last_steps(r, log, t->cancelled);
    } else {
        assert(has_no_end(all)) by {
            assert forall|i: int| 0 <= i < all.len() implies !(#[trigger] all[i] is SendEnd) by {
                if i < log.len() {
                    assert(all[i] == log[i]);
                } else {
                    assert(all[i] == steps[i - log.len()]);
                }
            }
        }
        if now.stage == Stage::Closing {
            if steps.len() > 0 {
                assert(all.last() == steps[0]);
            } else {
                assert(all =~= log);
            }
        }
    }
}

proof fn lemma_course(ts: Seq<Turn>)
    ensures
        is_course(after_turns(new_run(), ts).0, after_turns(new_run(), ts).1),
    decreases ts.len(),
{
    if ts.len() > 0 {
        lemma_course(ts.drop_last());
        let (was, log) = after_turns(new_run(), ts.drop_last());
        lemma_course_step(was, log, ts.last());
    }
}

/// Whatever happens to a job, the client is told of the end of a result only
/// after what was left of it had been sent. From there on the output is deleted,
/// its name given free and the folder deleted, and that is all.
pub proof fn end_comes_after_the_last_piece(ts: Seq<Turn>, i: int)
    requires
        0 <= i < after_turns(new_run(), ts).1.len(),
        after_turns(new_run(), ts).1[i] is SendEnd,
    ensures
        ({
            let (r, log) = after_turns(new_run(), ts);
            &&& r.stage == Stage::Over
            &&& exists|j: int| 0 <= j < i && #[trigger] log[j] is FinishStream
            &&& forall|j: int|
                0 <= j < log.len() && (#[trigger] log[j] is Stream || log[j] is FinishStream) ==> j
                    < i
            &&& log.skip(i + 1) == seq![
                StepView::RemoveFile { path: r.out },
                StepView::Release { path: r.out },
                StepView::RemoveFolder,
            ]
        }),
{
    lemma_course(ts);
    let (r, log) = after_turns(new_run(), ts);
    assert(log.skip(i + 1) =~= seq![
        StepView::RemoveFile { path: r.out },
        StepView::Release { path: r.out },
        StepView::RemoveFolder,
    ]);
}

/// A job that was launched comes to its end in one way: its state is told, and
/// where the result went to the client while it was written, nothing is left of
/// it at the daemon.
pub proof fn launched_job_is_seen_to_its_end(r: RunView, exit: Exit, cancelled: bool)
    requires
        r.stage == Stage::Encoding,
    ensures
        ({
            let (closing, first) = after_turn(r, Turn::Ended { exit });
            let (over, rest) = after_turn(closing, Turn::Settled { cancelled });
            let o = outcome_of(exit, cancelled, r.out);
            &&& over.stage == Stage::Over
            &&& first == seq![StepView::FinishStream]
            &&& rest == last_steps(r.remote, r.out, exit, cancelled)
            &&& o.2 == (!cancelled && exit == (Exit::Code { code: 0 }))
            &&& o.0 == if cancelled {
                "cancelled"@
            } else if o.2 {
                "done"@
            } else {
                "failed"@
            }
        }),
{
}

/// A job that is over stays over, and nothing more is done.
pub proof fn over_is_over(r: RunView, t: Turn)
    requires
        r.stage == Stage::Over,
    ensures
        after_turn(r, t) == (r, Seq::<StepView>::empty()),
{
}

/// What is done and told at each turn of a job, in its order: it is probed; its
/// streams are told to a client that is there, and then that it is encoded; ffmpeg
/// is started; a result for a client is sent while it is written.
pub proof fn job_takes_its_course(r: RunView, out: String, info: String, remote: bool, connected: bool)
    ensures
        r.stage == Stage::Waiting ==> ({
            let (now, steps) = after_turn(r, Turn::Begun { begin: Begin::Probe });
            &&& now.stage == Stage::Probing
            &&& steps == seq![
                StepView::Tell { state: "probing"@, detail: ""@ },
                StepView::Probe,
            ]
        }),
        r.stage == Stage::Probing ==> ({
            let (now, steps) = after_turn(r, Turn::Planned { out, info, remote, connected });
            let n = steps.len();
            &&& now.stage == Stage::Launching
            &&& now.out == out@
            &&& now.remote == remote
            &&& n == if connected {
                3int
            } else {
                2
            }
            &&& connected ==> steps[0] is TellStreams
            &&& steps[n - 2] == (StepView::Tell { state: "encoding"@, detail: info@ })
            &&& steps[n - 1] is Launch
        }),
        r.stage == Stage::Launching ==> ({
            let (now, steps) = after_turn(r, Turn::Launched);
            &&& now.stage == Stage::Encoding
            &&& now.out == r.out && now.remote == r.remote
            &&& r.remote ==> steps == seq![StepView::Stream]
            &&& !r.remote ==> steps.len() == 0
        }),
{
}

/// A job that cannot go on says why, and is over: it was cancelled, its input could
/// not be read, or ffmpeg could not be started. One that is not there says nothing.
pub proof fn job_that_stops_says_why(r: RunView, why: String)
    ensures
        r.stage == Stage::Waiting ==> after_turn(r, Turn::Begun { begin: Begin::Missing }) == (
            RunView { stage: Stage::Over, ..r },
            Seq::<StepView>::empty(),
        ),
        r.stage == Stage::Waiting ==> after_turn(r, Turn::Begun { begin: Begin::Cancelled }) == (
            RunView { stage: Stage::Over, ..r },
            seq![StepView::Tell { state: "cancelled"@, detail: ""@ }],
        ),
        r.stage == Stage::Probing ==> after_turn(r, Turn::ProbeFailed) == (
            RunView { stage: Stage::Over, ..r },
            seq![
                StepView::Tell {
                    state: "failed"@,
                    detail: "probe failed (ffprobe couldn't read the input)"@,
                },
            ],
        ),
        r.stage == Stage::Launching ==> after_turn(r, Turn::LaunchFailed { why }) == (
            RunView { stage: Stage::Over, ..r },
            seq![
                StepView::Tell { state: "failed"@, detail: "couldn't launch ffmpeg: "@ + why@ },
            ],
        ),
{
}

/// The last steps of a job: its state is told first. A result that went to the client
/// is whole where ffmpeg ended with zero and nobody cancelled; the client is told so,
/// and then the file is deleted, its name is given free and the folder is deleted. A
/// result that stays is left alone.
pub proof fn job_ends_in_order(r: RunView, cancelled: bool)
    requires
        r.stage == Stage::Closing,
    ensures
        ({
            let (now, steps) = after_turn(r, Turn::Settled { cancelled });
            let ok = !cancelled && r.exit == (Exit::Code { code: 0 });
            &&& now.stage == Stage::Over
            &&& steps.len() == if r.remote {
                5int
            } else {
                1
            }
            &&& ok ==> steps[0] == (StepView::Tell { state: "done"@, detail: r.out })
            &&& cancelled ==> steps[0] == (StepView::Tell { state: "cancelled"@, detail: r.out })
            &&& !ok && !cancelled ==> (steps[0] matches StepView::Tell { state, .. } && state
                == "failed"@)
            &&& r.remote ==> steps[1] == (StepView::SendEnd { ok }) && steps[2] == (
            StepView::RemoveFile { path: r.out }) && steps[3] == (StepView::Release { path: r.out })
                && steps[4] is RemoveFolder
        }),
{
}

} // verus!
