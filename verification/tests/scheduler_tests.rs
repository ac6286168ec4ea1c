use task_runner::model::{TaskStatus, Timestamp};
use task_runner::notify::{RecvOutcome, StatusEvent};
use task_runner::runner::{run_request, ExecOutcome};
use task_runner::service::{ClaimOutcome, Scheduler};
use task_runner::store::JobError;

fn submit(s: &mut Scheduler, name: &str, command: &str, output: Option<&str>) -> i32 {
    s.add_task(name.to_string(), command.to_string(), output.map(|o| o.to_string()))
        .unwrap()
        .id
}

#[test]
fn submitted_job_is_pending_with_equal_stamps() {
    let mut s = Scheduler::new(16);
    let job = s.add_task("build".to_string(), "compile release".to_string(), None).unwrap();
    assert!(matches!(job.status, TaskStatus::Pending));
    assert_eq!(job.created_at, job.updated_at);
}

#[test]
fn submission_with_empty_name_or_command_is_rejected() {
    let mut s = Scheduler::new(16);
    let r = s.add_task("".to_string(), "compile".to_string(), None);
    assert_eq!(r.unwrap_err(), JobError::Validation);
    let r = s.add_task("build".to_string(), "".to_string(), None);
    assert_eq!(r.unwrap_err(), JobError::Validation);
}

#[test]
fn successful_build_with_artifact_ends_success() {
    // submit {name:"build", command:"compile release", output:"out/app.bin"};
    // the tool exits 0 and the artifact exists afterwards
    let mut s = Scheduler::new(16);
    let id = submit(&mut s, "build", "compile release", Some("out/app.bin"));
    assert!(s.poll_tasks());
    let claimed = match s.claim_next() {
        ClaimOutcome::Claimed(job) => job,
        other => panic!("expected a claim, got {other:?}"),
    };
    assert_eq!(claimed.id, id);
    assert!(matches!(claimed.status, TaskStatus::Running));
    let req = run_request(&claimed);
    assert_eq!(req.tokens, vec!["compile".to_string(), "release".to_string()]);
    assert_eq!(req.output.as_deref(), Some("out/app.bin"));
    let (done, diagnostic) = s.finish_current(&ExecOutcome::Exited(0), true).unwrap();
    assert!(matches!(done.status, TaskStatus::Success));
    assert!(diagnostic.is_none());
}

#[test]
fn clean_exit_without_output_field_ends_success() {
    let mut s = Scheduler::new(16);
    submit(&mut s, "build", "compile", None);
    assert!(s.poll_tasks());
    assert!(matches!(s.claim_next(), ClaimOutcome::Claimed(_)));
    let (done, diagnostic) = s.finish_current(&ExecOutcome::Exited(0), false).unwrap();
    assert!(matches!(done.status, TaskStatus::Success));
    assert!(diagnostic.is_none());
}

#[test]
fn clean_exit_with_missing_artifact_ends_failed() {
    let mut s = Scheduler::new(16);
    submit(&mut s, "build", "compile", Some("out/app.bin"));
    assert!(s.poll_tasks());
    assert!(matches!(s.claim_next(), ClaimOutcome::Claimed(_)));
    let (done, diagnostic) = s.finish_current(&ExecOutcome::Exited(0), false).unwrap();
    assert!(matches!(done.status, TaskStatus::Failed));
    assert_eq!(
        diagnostic.unwrap(),
        "Command finished, but output file out/app.bin does not exist"
    );
}

#[test]
fn missing_recipe_exit_127_ends_failed_with_diagnostic() {
    // submit with command "missing_recipe"; the external tool exits 127
    let mut s = Scheduler::new(16);
    submit(&mut s, "missing", "missing_recipe", None);
    assert!(s.poll_tasks());
    assert!(matches!(s.claim_next(), ClaimOutcome::Claimed(_)));
    let (done, diagnostic) = s.finish_current(&ExecOutcome::Exited(127), false).unwrap();
    assert!(matches!(done.status, TaskStatus::Failed));
    assert_eq!(diagnostic.unwrap(), "Command failed, return code: 127");
}

#[test]
fn signal_termination_ends_failed_whatever_the_output() {
    let mut s = Scheduler::new(16);
    submit(&mut s, "build", "compile", Some("out/app.bin"));
    assert!(s.poll_tasks());
    assert!(matches!(s.claim_next(), ClaimOutcome::Claimed(_)));
    let (done, diagnostic) = s.finish_current(&ExecOutcome::Signaled, true).unwrap();
    assert!(matches!(done.status, TaskStatus::Failed));
    assert_eq!(diagnostic.unwrap(), "Command terminated by signal");
}

#[test]
fn two_jobs_run_in_submission_order_one_at_a_time() {
    // A then B: A reaches its terminal status strictly before B runs
    let mut s = Scheduler::new(16);
    let a = submit(&mut s, "a", "first", None);
    let b = submit(&mut s, "b", "second", None);
    assert!(s.poll_tasks());
    let first = match s.claim_next() {
        ClaimOutcome::Claimed(job) => job,
        other => panic!("expected a claim, got {other:?}"),
    };
    assert_eq!(first.id, a);
    // while A runs, B is still pending
    let b_row = s.store.find_task(b).unwrap();
    assert!(matches!(b_row.status, TaskStatus::Pending));
    let (a_done, _) = s.finish_current(&ExecOutcome::Exited(0), false).unwrap();
    assert!(matches!(a_done.status, TaskStatus::Success));
    let second = match s.claim_next() {
        ClaimOutcome::Claimed(job) => job,
        other => panic!("expected a claim, got {other:?}"),
    };
    assert_eq!(second.id, b);
    s.finish_current(&ExecOutcome::Exited(0), false).unwrap();
    assert!(matches!(s.claim_next(), ClaimOutcome::Idle));
}

#[test]
fn cancelled_pending_job_is_never_claimed() {
    let mut s = Scheduler::new(16);
    let a = submit(&mut s, "a", "first", None);
    let b = submit(&mut s, "b", "second", None);
    assert!(s.cancel_task(a));
    assert!(s.poll_tasks());
    let claimed = match s.claim_next() {
        ClaimOutcome::Claimed(job) => job,
        other => panic!("expected a claim, got {other:?}"),
    };
    assert_eq!(claimed.id, b);
    s.finish_current(&ExecOutcome::Exited(0), false).unwrap();
    assert!(matches!(s.claim_next(), ClaimOutcome::Idle));
}

#[test]
fn job_cancelled_after_polling_is_skipped() {
    let mut s = Scheduler::new(16);
    let a = submit(&mut s, "a", "first", None);
    let b = submit(&mut s, "b", "second", None);
    assert!(s.poll_tasks());
    assert!(s.cancel_task(a));
    match s.claim_next() {
        ClaimOutcome::Skipped(id) => assert_eq!(id, a),
        other => panic!("expected a skip, got {other:?}"),
    }
    let claimed = match s.claim_next() {
        ClaimOutcome::Claimed(job) => job,
        other => panic!("expected a claim, got {other:?}"),
    };
    assert_eq!(claimed.id, b);
}

#[test]
fn job_cancelled_while_running_finishes_quietly() {
    let mut s = Scheduler::new(16);
    let a = submit(&mut s, "a", "first", None);
    assert!(s.poll_tasks());
    assert!(matches!(s.claim_next(), ClaimOutcome::Claimed(_)));
    assert!(s.cancel_task(a));
    assert!(s.finish_current(&ExecOutcome::Exited(0), false).is_none());
    assert!(s.store.find_task(a).is_none());
}

#[test]
fn reset_returns_failed_job_to_pending_and_requeues_it() {
    let mut s = Scheduler::new(16);
    let a = submit(&mut s, "a", "first", None);
    assert!(s.poll_tasks());
    assert!(matches!(s.claim_next(), ClaimOutcome::Claimed(_)));
    let (failed, _) = s.finish_current(&ExecOutcome::Exited(1), false).unwrap();
    assert!(matches!(failed.status, TaskStatus::Failed));
    assert!(!s.poll_tasks());
    let reset = s.reset_task(a).unwrap();
    assert!(matches!(reset.status, TaskStatus::Pending));
    assert_eq!(reset.created_at, failed.created_at);
    assert!(reset.updated_at.unix >= reset.created_at.unix);
    // the runner re-picks it no later than the next poll
    assert!(s.poll_tasks());
    let again = match s.claim_next() {
        ClaimOutcome::Claimed(job) => job,
        other => panic!("expected a claim, got {other:?}"),
    };
    assert_eq!(again.id, a);
}

#[test]
fn reset_at_accepts_same_day_and_rejects_stale_jobs() {
    let mut s = Scheduler::new(16);
    let a = submit(&mut s, "a", "first", None);
    assert!(s.poll_tasks());
    assert!(matches!(s.claim_next(), ClaimOutcome::Claimed(_)));
    let (failed, _) = s.finish_current(&ExecOutcome::Exited(1), false).unwrap();
    // a reading on another calendar day makes the job stale
    let stale = Timestamp { year: failed.created_at.year - 1, ..failed.created_at };
    assert_eq!(s.reset_at(a, stale).unwrap_err(), JobError::Validation);
    let failed_row = s.store.find_task(a).unwrap();
    assert!(matches!(failed_row.status, TaskStatus::Failed));
    // a reading on the creation day resets, keeps created_at, stamps updated_at
    let today = Timestamp { unix: failed.updated_at.unix + 5, ..failed.created_at };
    let reset = s.reset_at(a, today).unwrap();
    assert!(matches!(reset.status, TaskStatus::Pending));
    assert_eq!(reset.created_at, failed.created_at);
    assert_eq!(reset.updated_at.unix, failed.updated_at.unix + 5);
    assert!(s.has_work);
}

#[test]
fn reset_of_unknown_or_unfailed_jobs_is_rejected() {
    let mut s = Scheduler::new(16);
    assert_eq!(s.reset_task(9).unwrap_err(), JobError::NotFound);
    let a = submit(&mut s, "a", "first", None);
    assert_eq!(s.reset_task(a).unwrap_err(), JobError::Validation);
}

#[test]
fn listing_is_one_indexed_and_rejects_page_zero() {
    let mut s = Scheduler::new(16);
    assert_eq!(s.list_task(0).unwrap_err(), JobError::Validation);
    for i in 0..12 {
        submit(&mut s, &format!("job{i}"), "x", None);
    }
    let (page1, pages) = s.list_task(1).unwrap();
    assert_eq!(pages, 2);
    let ids: Vec<i32> = page1.iter().map(|j| j.id).collect();
    assert_eq!(ids, vec![12, 11, 10, 9, 8, 7, 6, 5, 4, 3]);
    let (page2, _) = s.list_task(2).unwrap();
    let ids: Vec<i32> = page2.iter().map(|j| j.id).collect();
    assert_eq!(ids, vec![2, 1]);
}

#[test]
fn cancelled_job_leaves_the_listing() {
    let mut s = Scheduler::new(16);
    let a = submit(&mut s, "a", "x", None);
    let b = submit(&mut s, "b", "x", None);
    assert!(s.cancel_task(a));
    let (page1, _) = s.list_task(1).unwrap();
    let ids: Vec<i32> = page1.iter().map(|j| j.id).collect();
    assert_eq!(ids, vec![b]);
}

#[test]
fn empty_poll_lowers_the_has_work_flag_until_new_work() {
    let mut s = Scheduler::new(16);
    assert!(s.has_work);
    assert!(!s.poll_tasks());
    assert!(!s.has_work);
    let a = submit(&mut s, "a", "x", None);
    assert!(s.has_work);
    assert!(s.poll_tasks());
    match s.claim_next() {
        ClaimOutcome::Claimed(job) => assert_eq!(job.id, a),
        other => panic!("expected a claim, got {other:?}"),
    }
}

#[test]
fn every_status_transition_is_published() {
    let mut s = Scheduler::new(16);
    let a = submit(&mut s, "a", "x", None);
    let h = s.notifier.subscribe();
    assert!(s.poll_tasks());
    assert!(matches!(s.claim_next(), ClaimOutcome::Claimed(_)));
    s.finish_current(&ExecOutcome::Exited(1), false).unwrap();
    s.reset_task(a).unwrap();
    let expected = [TaskStatus::Running, TaskStatus::Failed, TaskStatus::Pending];
    for status in expected {
        assert_eq!(s.notifier.recv(h), RecvOutcome::Next(StatusEvent { id: a, status }));
    }
    assert_eq!(s.notifier.recv(h), RecvOutcome::Empty);
}

#[test]
fn stop_lowers_the_keep_running_flag() {
    let mut s = Scheduler::new(16);
    assert!(s.keep_running);
    s.stop();
    assert!(!s.keep_running);
}
