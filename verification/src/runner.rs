//! How a finished run is judged.
//!
//! The runner hands the external command-runner's fate back as plain values:
//! how the process ended, and whether the expected artifact exists after a
//! clean exit. This module turns that report into the job's terminal status
//! and the diagnostic line the log gets.

use vstd::prelude::*;
use crate::digits::{int_seq, i64_string};
use crate::model::{Job, TaskStatus, log_path_seq};
use crate::text::{tokens_of, tokenize};

verus! {

/// How the external command-runner's process ended: a normal exit with a
/// code, termination by a signal, or a failure to launch at all (binary or
/// log sink missing).
#[derive(Copy, Clone, Debug, PartialEq, Eq, Structural)]
pub enum ExecOutcome {
    Exited(i32),
    Signaled,
    LaunchFailed,
}

/// The diagnostic for a non-zero exit code.
pub open spec fn msg_exit_code(code: int) -> Seq<char> {
    "Command failed, return code: "@ + int_seq(code)
}

/// The diagnostic for termination by signal.
pub open spec fn msg_signal() -> Seq<char> {
    "Command terminated by signal"@
}

/// The diagnostic for a clean exit whose promised artifact is missing.
pub open spec fn msg_missing_output(path: Seq<char>) -> Seq<char> {
    "Command finished, but output file "@ + path + " does not exist"@
}

/// The terminal status a run earns. Success takes exactly a zero exit plus,
/// when an artifact was promised, that artifact's existence; everything
/// else fails.
pub open spec fn verdict_status(
    outcome: ExecOutcome,
    has_output: bool,
    artifact_exists: bool,
) -> TaskStatus {
    match outcome {
        ExecOutcome::Exited(code) => if code == 0 {
            if !has_output || artifact_exists {
                TaskStatus::Success
            } else {
                TaskStatus::Failed
            }
        } else {
            TaskStatus::Failed
        },
        ExecOutcome::Signaled => TaskStatus::Failed,
        ExecOutcome::LaunchFailed => TaskStatus::Failed,
    }
}

/// The diagnostic line a run leaves in its log, if any. A launch failure
/// leaves none: there is no log sink to write to.
pub open spec fn verdict_message(
    outcome: ExecOutcome,
    output: Option<Seq<char>>,
    artifact_exists: bool,
) -> Option<Seq<char>> {
    match outcome {
        ExecOutcome::Exited(code) => if code != 0 {
            Some(msg_exit_code(code as int))
        } else if output is Some && !artifact_exists {
            Some(msg_missing_output(output->0))
        } else {
            None
        },
        ExecOutcome::Signaled => Some(msg_signal()),
        ExecOutcome::LaunchFailed => None,
    }
}

/// Judge a finished run: its terminal status and its diagnostic line.
pub fn run_verdict(outcome: &ExecOutcome, output: &Option<String>, artifact_exists: bool) -> (r: (
    TaskStatus,
    Option<String>,
))
    ensures
        r.0 == verdict_status(*outcome, *output is Some, artifact_exists),
        match r.1 {
            Some(m) => verdict_message(*outcome, output.deep_view(), artifact_exists) == Some(
                m@,
            ),
            None => verdict_message(*outcome, output.deep_view(), artifact_exists) is None,
        },
{
    match outcome {
        ExecOutcome::Exited(code) => {
            if *code != 0 {
                let mut m = String::from_str("Command failed, return code: ");
                let code_text = i64_string(*code as i64);
                m.append(code_text.as_str());
                proof {
                    assert(m@ =~= msg_exit_code(*code as int));
                }
                (TaskStatus::Failed, Some(m))
            } else {
                match output {
                    Some(path) => {
                        if artifact_exists {
                            (TaskStatus::Success, None)
                        } else {
                            let mut m = String::from_str("Command finished, but output file ");
                            m.append(path.as_str());
                            m.append(" does not exist");
                            proof {
                                assert(m@ =~= msg_missing_output(path@));
                            }
                            (TaskStatus::Failed, Some(m))
                        }
                    },
                    None => (TaskStatus::Success, None),
                }
            }
        },
        ExecOutcome::Signaled => (
            TaskStatus::Failed,
            Some(String::from_str("Command terminated by signal")),
        ),
        ExecOutcome::LaunchFailed => (TaskStatus::Failed, None),
    }
}

/// Everything the outer loop needs to execute a claimed job: its id, the
/// whitespace-tokenized command (recipe name first), the derived log path,
/// and the expected artifact, if any.
#[derive(Debug)]
pub struct RunRequest {
    pub id: i32,
    pub tokens: Vec<String>,
    pub log_path: String,
    pub output: Option<String>,
}

/// Lay out how a claimed job is to be executed.
pub fn run_request(job: &Job) -> (r: RunRequest)
    ensures
        r.id == job.id,
        r.tokens.deep_view() == tokens_of(job.command@),
        r.log_path@ == log_path_seq(job.id as int, job.created_at),
        r.output == job.output,
{
    RunRequest {
        id: job.id,
        tokens: tokenize(job.command.as_str()),
        log_path: job.log_path(),
        output: match &job.output {
            Some(path) => Some(path.clone()),
            None => None,
        },
    }
}

/// A run that exits 0 with no artifact promised always ends `Success`,
/// whatever the artifact check would have said.
pub proof fn lemma_clean_exit_no_output_succeeds(artifact_exists: bool)
    ensures
        verdict_status(ExecOutcome::Exited(0), false, artifact_exists) == TaskStatus::Success,
{
}

/// A run that exits 0 with an artifact promised but missing always ends
/// `Failed`.
pub proof fn lemma_missing_artifact_fails()
    ensures
        verdict_status(ExecOutcome::Exited(0), true, false) == TaskStatus::Failed,
{
}

/// A non-zero exit, a signal, or a failed launch always ends `Failed`,
/// whatever was promised and whatever is on disk.
pub proof fn lemma_bad_exit_fails(code: i32, has_output: bool, artifact_exists: bool)
    requires
        code != 0,
    ensures
        verdict_status(ExecOutcome::Exited(code), has_output, artifact_exists)
            == TaskStatus::Failed,
        verdict_status(ExecOutcome::Signaled, has_output, artifact_exists) == TaskStatus::Failed,
        verdict_status(ExecOutcome::LaunchFailed, has_output, artifact_exists)
            == TaskStatus::Failed,
{
}

} // verus!
