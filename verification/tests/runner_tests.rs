use task_runner::model::TaskStatus;
use task_runner::runner::{run_verdict, ExecOutcome};

#[test]
fn zero_exit_without_output_is_success() {
    let (status, diagnostic) = run_verdict(&ExecOutcome::Exited(0), &None, false);
    assert!(matches!(status, TaskStatus::Success));
    assert!(diagnostic.is_none());
}

#[test]
fn zero_exit_with_existing_artifact_is_success() {
    let output = Some("out/app.bin".to_string());
    let (status, diagnostic) = run_verdict(&ExecOutcome::Exited(0), &output, true);
    assert!(matches!(status, TaskStatus::Success));
    assert!(diagnostic.is_none());
}

#[test]
fn zero_exit_with_missing_artifact_is_failed() {
    let output = Some("out/app.bin".to_string());
    let (status, diagnostic) = run_verdict(&ExecOutcome::Exited(0), &output, false);
    assert!(matches!(status, TaskStatus::Failed));
    assert_eq!(
        diagnostic.unwrap(),
        "Command finished, but output file out/app.bin does not exist"
    );
}

#[test]
fn nonzero_exit_is_failed_regardless_of_artifact() {
    let output = Some("out/app.bin".to_string());
    let (status, diagnostic) = run_verdict(&ExecOutcome::Exited(2), &output, true);
    assert!(matches!(status, TaskStatus::Failed));
    assert_eq!(diagnostic.unwrap(), "Command failed, return code: 2");
    let (status, diagnostic) = run_verdict(&ExecOutcome::Exited(-1), &None, false);
    assert!(matches!(status, TaskStatus::Failed));
    assert_eq!(diagnostic.unwrap(), "Command failed, return code: -1");
}

#[test]
fn signal_termination_is_failed() {
    let (status, diagnostic) = run_verdict(&ExecOutcome::Signaled, &None, false);
    assert!(matches!(status, TaskStatus::Failed));
    assert_eq!(diagnostic.unwrap(), "Command terminated by signal");
}

#[test]
fn launch_failure_is_failed_with_no_log_line() {
    let (status, diagnostic) = run_verdict(&ExecOutcome::LaunchFailed, &None, false);
    assert!(matches!(status, TaskStatus::Failed));
    assert!(diagnostic.is_none());
}
