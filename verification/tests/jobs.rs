use fast6::job::{JobRun, Stage, Step, Turn};
use fast6::server::{Begin, Exit};

fn shown(steps: Vec<Step>) -> Vec<String> {
    steps
        .into_iter()
        .map(|s| match s {
            Step::Tell { state, detail } => format!("tell {state}: {detail}"),
            Step::Probe => "probe".to_string(),
            Step::TellStreams => "streams".to_string(),
            Step::Launch => "launch".to_string(),
            Step::Stream => "stream".to_string(),
            Step::FinishStream => "finish".to_string(),
            Step::SendEnd { ok } => format!("end {ok}"),
            Step::RemoveFile { path } => format!("delete {path}"),
            Step::Release { path } => format!("release {path}"),
            Step::RemoveFolder => "folder".to_string(),
        })
        .collect()
}

fn planned(remote: bool, connected: bool) -> Turn {
    Turn::Planned { out: "/o/a.mp4".to_string(), info: "AV1".to_string(), remote, connected }
}

/// Begins a job and brings it to the point where ffmpeg has ended.
fn ended(remote: bool, connected: bool, exit: Exit) -> JobRun {
    let mut j = JobRun::new();
    assert!(j.stage() == Stage::Waiting);
    assert_eq!(shown(j.turn(Turn::Begun { begin: Begin::Probe })), vec!["tell probing: ", "probe"]);
    let steps = shown(j.turn(planned(remote, connected)));
    if connected {
        assert_eq!(steps, vec!["streams", "tell encoding: AV1", "launch"]);
    } else {
        assert_eq!(steps, vec!["tell encoding: AV1", "launch"]);
    }
    let steps = shown(j.turn(Turn::Launched));
    assert_eq!(steps, if remote { vec!["stream"] } else { vec![] });
    assert!(j.stage() == Stage::Encoding);
    assert_eq!(shown(j.turn(Turn::Ended { exit })), vec!["finish"]);
    assert!(j.stage() == Stage::Closing);
    j
}

#[test]
fn a_remote_job_leaves_nothing_behind() {
    let last = |exit: Exit, cancelled: bool| {
        let mut j = ended(true, true, exit);
        let steps = shown(j.turn(Turn::Settled { cancelled }));
        assert!(j.stage() == Stage::Over);
        steps
    };
    let tail = ["delete /o/a.mp4", "release /o/a.mp4", "folder"];
    let with = |tell: &str, end: &str| {
        let mut v = vec![tell.to_string(), end.to_string()];
        v.extend(tail.iter().map(|s| s.to_string()));
        v
    };
    assert_eq!(last(Exit::Code { code: 0 }, false), with("tell done: /o/a.mp4", "end true"));
    assert_eq!(last(Exit::Code { code: 0 }, true), with("tell cancelled: /o/a.mp4", "end false"));
    assert_eq!(last(Exit::Code { code: 3 }, false), with("tell failed: ffmpeg exit 3", "end false"));
    assert_eq!(last(Exit::Killed, false), with("tell failed: ffmpeg exit -1", "end false"));
    let lost = Exit::Lost { why: "gone".to_string() };
    assert_eq!(last(lost, false), with("tell failed: gone", "end false"));
}

#[test]
fn a_local_job_keeps_its_output() {
    for connected in [true, false] {
        let mut j = ended(false, connected, Exit::Code { code: 0 });
        let steps = shown(j.turn(Turn::Settled { cancelled: false }));
        assert_eq!(steps, vec!["tell done: /o/a.mp4"]);
    }
}

#[test]
fn jobs_that_do_not_get_far() {
    let mut j = JobRun::new();
    assert_eq!(shown(j.turn(Turn::Begun { begin: Begin::Missing })), Vec::<String>::new());
    assert!(j.stage() == Stage::Over);
    let mut j = JobRun::new();
    assert_eq!(shown(j.turn(Turn::Begun { begin: Begin::Cancelled })), vec!["tell cancelled: "]);
    assert!(j.stage() == Stage::Over);
    let mut j = JobRun::new();
    j.turn(Turn::Begun { begin: Begin::Probe });
    assert_eq!(
        shown(j.turn(Turn::ProbeFailed)),
        vec!["tell failed: probe failed (ffprobe couldn't read the input)"]
    );
    assert!(j.stage() == Stage::Over);
    let mut j = JobRun::new();
    j.turn(Turn::Begun { begin: Begin::Probe });
    j.turn(planned(true, true));
    assert_eq!(
        shown(j.turn(Turn::LaunchFailed { why: "no such file".to_string() })),
        vec!["tell failed: couldn't launch ffmpeg: no such file"]
    );
    assert!(j.stage() == Stage::Over);
}

#[test]
fn a_turn_out_of_place_changes_nothing() {
    let mut j = ended(true, true, Exit::Code { code: 0 });
    assert_eq!(shown(j.turn(Turn::Launched)), Vec::<String>::new());
    assert!(j.stage() == Stage::Closing);
    j.turn(Turn::Settled { cancelled: false });
    assert_eq!(shown(j.turn(Turn::Settled { cancelled: true })), Vec::<String>::new());
    assert_eq!(shown(j.turn(Turn::Begun { begin: Begin::Probe })), Vec::<String>::new());
    assert!(j.stage() == Stage::Over);
}
