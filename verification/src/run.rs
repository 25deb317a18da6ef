//! The decisions of a run of the linter: what to read from the backend,
//! what to check, and how the run ends. The program around the library
//! performs each action and hands back what came of it.
use vstd::prelude::*;
use crate::msg::push_str;
use crate::text::chars_of;
use crate::ext::string_of;
use crate::vcs::{deleted_only, ChangeMap, FileChangesV};

verus! {

/// Where a run stands.
pub enum RunState {
    /// Nothing read yet. The diff is skipped when files are given without
    /// a diff range; `nothing_listed` says the backend lists no file.
    Start { skip_diff: bool, nothing_listed: bool },
    /// Waiting for the diff.
    AwaitDiff { nothing_listed: bool },
    /// Waiting for the suppressions of the diff's commits.
    AwaitSuppressions { changes: ChangeMap, nothing_listed: bool },
    /// Waiting for the rendered findings of the check.
    AwaitOutput,
    /// The run is over.
    Done,
}

/// What came of the last action.
pub enum RunEvent {
    /// The run begins.
    Begin,
    /// The diff, or why it could not be read.
    Diff(Result<ChangeMap, String>),
    /// The suppression reason, if any, or why it could not be read.
    Suppressions(Result<Option<String>, String>),
    /// The findings of the check as rendered for output (empty when there
    /// is none).
    Output(String),
}

/// What the program does next.
pub enum RunAction {
    /// Read the diff.
    ReadDiff,
    /// Read the suppressions of the diff's commits.
    ReadSuppressions,
    /// Check these changes, print the rendered findings when there are
    /// any, and hand them back.
    Check(ChangeMap),
    /// Print the message and end the run with the fatal status 2.
    Fail(String),
    /// End the run with this status.
    Exit(i32),
}

pub enum RunStateV {
    Start { skip_diff: bool, nothing_listed: bool },
    AwaitDiff { nothing_listed: bool },
    AwaitSuppressions { changes: Seq<(Seq<char>, FileChangesV)>, nothing_listed: bool },
    AwaitOutput,
    Done,
}

pub enum RunEventV {
    Begin,
    Diff(Result<Seq<(Seq<char>, FileChangesV)>, Seq<char>>),
    Suppressions(Result<Option<Seq<char>>, Seq<char>>),
    Output(Seq<char>),
}

pub enum RunActionV {
    ReadDiff,
    ReadSuppressions,
    Check(Seq<(Seq<char>, FileChangesV)>),
    Fail(Seq<char>),
    Exit(int),
}

pub open spec fn state_view(s: RunState) -> RunStateV {
    match s {
        RunState::Start { skip_diff, nothing_listed } => RunStateV::Start { skip_diff, nothing_listed },
        RunState::AwaitDiff { nothing_listed } => RunStateV::AwaitDiff { nothing_listed },
        RunState::AwaitSuppressions { changes, nothing_listed } => RunStateV::AwaitSuppressions {
            changes: changes@,
            nothing_listed,
        },
        RunState::AwaitOutput => RunStateV::AwaitOutput,
        RunState::Done => RunStateV::Done,
    }
}

pub open spec fn event_view(e: RunEvent) -> RunEventV {
    match e {
        RunEvent::Begin => RunEventV::Begin,
        RunEvent::Diff(Ok(c)) => RunEventV::Diff(Ok(c@)),
        RunEvent::Diff(Err(m)) => RunEventV::Diff(Err(m@)),
        RunEvent::Suppressions(Ok(Some(r))) => RunEventV::Suppressions(Ok(Some(r@))),
        RunEvent::Suppressions(Ok(None)) => RunEventV::Suppressions(Ok(None)),
        RunEvent::Suppressions(Err(m)) => RunEventV::Suppressions(Err(m@)),
        RunEvent::Output(o) => RunEventV::Output(o@),
    }
}

pub open spec fn action_view(a: RunAction) -> RunActionV {
    match a {
        RunAction::ReadDiff => RunActionV::ReadDiff,
        RunAction::ReadSuppressions => RunActionV::ReadSuppressions,
        RunAction::Check(c) => RunActionV::Check(c@),
        RunAction::Fail(m) => RunActionV::Fail(m@),
        RunAction::Exit(code) => RunActionV::Exit(code as int),
    }
}

/// Checks `changes`, or ends the run at once when there is nothing to
/// check: no change and no listed file.
pub open spec fn check_or_finish(
    changes: Seq<(Seq<char>, FileChangesV)>,
    nothing_listed: bool,
) -> (RunStateV, RunActionV) {
    if changes.len() == 0 && nothing_listed {
        (RunStateV::Done, RunActionV::Exit(0))
    } else {
        (RunStateV::AwaitOutput, RunActionV::Check(changes))
    }
}

/// The message of a backend failure.
pub open spec fn failure_message(e: Seq<char>) -> Seq<char> {
    "error: "@ + e
}

/// One step of a run. When a suppression reason is given, only the
/// deleted-file markers of the diff are kept (for the reverse lookup). The
/// run ends with status 1 when findings were printed, 0 when there were
/// none, and 2 on a failure of the backend or an event the state does not
/// wait for.
pub open spec fn run_step(s: RunStateV, e: RunEventV) -> (RunStateV, RunActionV) {
    match (s, e) {
        (RunStateV::Start { skip_diff, nothing_listed }, RunEventV::Begin) => if skip_diff {
            check_or_finish(Seq::empty(), nothing_listed)
        } else {
            (RunStateV::AwaitDiff { nothing_listed }, RunActionV::ReadDiff)
        },
        (RunStateV::AwaitDiff { nothing_listed }, RunEventV::Diff(d)) => match d {
            Ok(changes) => (RunStateV::AwaitSuppressions { changes, nothing_listed }, RunActionV::ReadSuppressions),
            Err(m) => (RunStateV::Done, RunActionV::Fail(failure_message(m))),
        },
        (RunStateV::AwaitSuppressions { changes, nothing_listed }, RunEventV::Suppressions(r)) => match r {
            Ok(Some(_)) => check_or_finish(deleted_only(changes), nothing_listed),
            Ok(None) => check_or_finish(changes, nothing_listed),
            Err(m) => (RunStateV::Done, RunActionV::Fail(failure_message(m))),
        },
        (RunStateV::AwaitOutput, RunEventV::Output(o)) => (
            RunStateV::Done,
            RunActionV::Exit(if o.len() == 0 { 0 } else { 1 }),
        ),
        _ => (RunStateV::Done, RunActionV::Exit(2)),
    }
}

/// The start of a run: the diff is skipped when files are given without a
/// diff range.
pub fn start(diff_given: bool, files_given: bool, nothing_listed: bool) -> (r: RunState)
    ensures
        state_view(r) == (RunStateV::Start { skip_diff: !diff_given && files_given, nothing_listed }),
{
    RunState::Start { skip_diff: !diff_given && files_given, nothing_listed }
}

fn check_or_finish_exec(changes: ChangeMap, nothing_listed: bool) -> (r: (RunState, RunAction))
    ensures
        (state_view(r.0), action_view(r.1)) == check_or_finish(changes@, nothing_listed),
{
    if changes.is_empty() && nothing_listed {
        (RunState::Done, RunAction::Exit(0))
    } else {
        (RunState::AwaitOutput, RunAction::Check(changes))
    }
}

fn failure(e: String) -> (r: RunAction)
    ensures
        action_view(r) == RunActionV::Fail(failure_message(e@)),
{
    let mut m = chars_of("error: ");
    push_str(&mut m, e.as_str());
    RunAction::Fail(string_of(m.as_slice()))
}

/// One step of a run (see `run_step`).
pub fn step(state: RunState, event: RunEvent) -> (r: (RunState, RunAction))
    ensures
        (state_view(r.0), action_view(r.1)) == run_step(state_view(state), event_view(event)),
{
    match (state, event) {
        (RunState::Start { skip_diff, nothing_listed }, RunEvent::Begin) => {
            if skip_diff {
                check_or_finish_exec(ChangeMap::new(), nothing_listed)
            } else {
                (RunState::AwaitDiff { nothing_listed }, RunAction::ReadDiff)
            }
        },
        (RunState::AwaitDiff { nothing_listed }, RunEvent::Diff(d)) => match d {
            Ok(changes) => (RunState::AwaitSuppressions { changes, nothing_listed }, RunAction::ReadSuppressions),
            Err(m) => (RunState::Done, failure(m)),
        },
        (RunState::AwaitSuppressions { changes, nothing_listed }, RunEvent::Suppressions(r)) => match r {
            Ok(Some(_)) => {
                let mut kept = changes;
                kept.retain_deleted();
                check_or_finish_exec(kept, nothing_listed)
            },
            Ok(None) => check_or_finish_exec(changes, nothing_listed),
            Err(m) => (RunState::Done, failure(m)),
        },
        (RunState::AwaitOutput, RunEvent::Output(o)) => {
            let code: i32 = if o.as_str().unicode_len() == 0 { 0 } else { 1 };
            (RunState::Done, RunAction::Exit(code))
        },
        _ => (RunState::Done, RunAction::Exit(2)),
    }
}

// ─── Laws ───

/// Files given without a diff range are checked without reading the diff.
pub proof fn law_files_without_range_skip_diff(nothing_listed: bool)
    ensures
        run_step(RunStateV::Start { skip_diff: true, nothing_listed }, RunEventV::Begin).1 !is ReadDiff,
{
}

/// A suppressed diff is checked by its deleted-file markers alone.
pub proof fn law_suppression_keeps_deletions(
    changes: Seq<(Seq<char>, FileChangesV)>,
    nothing_listed: bool,
    reason: Seq<char>,
)
    ensures
        run_step(
            RunStateV::AwaitSuppressions { changes, nothing_listed },
            RunEventV::Suppressions(Ok(Some(reason))),
        ).1 matches RunActionV::Check(c) ==> c == deleted_only(changes),
{
}

/// A run whose check printed findings ends with status 1; one without
/// findings with status 0.
pub proof fn law_exit_status(o: Seq<char>)
    ensures
        run_step(RunStateV::AwaitOutput, RunEventV::Output(o)) == (
            RunStateV::Done,
            RunActionV::Exit(if o.len() == 0 { 0 } else { 1 }),
        ),
{
}

/// A failure of the backend ends the run.
pub proof fn law_backend_failure_ends_run(s: RunStateV, e: RunEventV)
    requires
        e matches RunEventV::Diff(Err(_)) || e matches RunEventV::Suppressions(Err(_)),
    ensures
        run_step(s, e).0 is Done,
        run_step(s, e).1 is Fail || run_step(s, e).1 == RunActionV::Exit(2),
{
}

} // verus!
