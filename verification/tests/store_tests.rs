use task_runner::model::{TaskStatus, Timestamp};
use task_runner::store::{JobError, JobStore};

fn stamp(unix: i64) -> Timestamp {
    Timestamp { unix, year: 2026, month: 10, day: 12 }
}

#[test]
fn created_job_starts_pending_with_equal_stamps() {
    let mut store = JobStore::new();
    let job = store
        .create_task("build".to_string(), "compile release".to_string(), None, stamp(100))
        .unwrap();
    assert_eq!(job.id, 1);
    assert!(matches!(job.status, TaskStatus::Pending));
    assert_eq!(job.created_at, job.updated_at);
    assert_eq!(job.created_at.unix, 100);
}

#[test]
fn ids_are_assigned_in_increasing_order() {
    let mut store = JobStore::new();
    let a = store.create_task("a".to_string(), "a".to_string(), None, stamp(1)).unwrap();
    let b = store.create_task("b".to_string(), "b".to_string(), None, stamp(2)).unwrap();
    let c = store.create_task("c".to_string(), "c".to_string(), None, stamp(3)).unwrap();
    assert_eq!((a.id, b.id, c.id), (1, 2, 3));
}

#[test]
fn exhausted_id_space_is_a_store_error() {
    let mut store = JobStore { jobs: Vec::new(), next_id: i32::MAX };
    let r = store.create_task("a".to_string(), "a".to_string(), None, stamp(1));
    assert_eq!(r.unwrap_err(), JobError::Store);
}

#[test]
fn pending_queue_is_fifo_with_id_tie_break() {
    let mut store = JobStore::new();
    // id 1 submitted with the latest creation time, ids 2 and 3 tie earlier
    store.create_task("late".to_string(), "x".to_string(), None, stamp(100)).unwrap();
    store.create_task("tie-a".to_string(), "x".to_string(), None, stamp(50)).unwrap();
    store.create_task("tie-b".to_string(), "x".to_string(), None, stamp(50)).unwrap();
    let pending = store.pending_tasks();
    let order: Vec<i32> = pending.iter().map(|j| j.id).collect();
    assert_eq!(order, vec![2, 3, 1]);
}

#[test]
fn update_bumps_updated_at_and_keeps_created_at() {
    let mut store = JobStore::new();
    let job = store.create_task("a".to_string(), "x".to_string(), None, stamp(10)).unwrap();
    let updated = store.update_task(job.id, TaskStatus::Running, stamp(40)).unwrap();
    assert!(matches!(updated.status, TaskStatus::Running));
    assert_eq!(updated.created_at.unix, 10);
    assert_eq!(updated.updated_at.unix, 40);
}

#[test]
fn update_never_moves_updated_at_before_created_at() {
    let mut store = JobStore::new();
    let job = store.create_task("a".to_string(), "x".to_string(), None, stamp(100)).unwrap();
    // a clock that ran backwards is clamped to the creation time
    let updated = store.update_task(job.id, TaskStatus::Running, stamp(5)).unwrap();
    assert_eq!(updated.updated_at.unix, 100);
}

#[test]
fn update_of_unknown_id_is_not_found() {
    let mut store = JobStore::new();
    let r = store.update_task(7, TaskStatus::Pending, stamp(1));
    assert_eq!(r.unwrap_err(), JobError::NotFound);
}

#[test]
fn delete_reports_whether_a_row_was_removed() {
    let mut store = JobStore::new();
    let job = store.create_task("a".to_string(), "x".to_string(), None, stamp(1)).unwrap();
    assert!(store.delete_task(job.id));
    assert!(!store.delete_task(job.id));
}

#[test]
fn cancelled_job_leaves_the_pending_queue() {
    let mut store = JobStore::new();
    let a = store.create_task("a".to_string(), "x".to_string(), None, stamp(1)).unwrap();
    let b = store.create_task("b".to_string(), "x".to_string(), None, stamp(2)).unwrap();
    store.delete_task(a.id);
    let pending = store.pending_tasks();
    assert_eq!(pending.len(), 1);
    assert_eq!(pending[0].id, b.id);
}

#[test]
fn pages_are_most_recent_first_with_ceiling_page_count() {
    let mut store = JobStore::new();
    for i in 0..25i64 {
        store.create_task(format!("job{i}"), "x".to_string(), None, stamp(i)).unwrap();
    }
    let (page0, pages) = store.recent_tasks(10, 0);
    assert_eq!(pages, 3);
    let ids: Vec<i32> = page0.iter().map(|j| j.id).collect();
    assert_eq!(ids, vec![25, 24, 23, 22, 21, 20, 19, 18, 17, 16]);
    let (page2, _) = store.recent_tasks(10, 2);
    let ids: Vec<i32> = page2.iter().map(|j| j.id).collect();
    assert_eq!(ids, vec![5, 4, 3, 2, 1]);
    let (beyond, pages) = store.recent_tasks(10, 3);
    assert_eq!(pages, 3);
    assert!(beyond.is_empty());
}

#[test]
fn month_bucket_and_log_path_derive_from_id_and_creation() {
    let mut store = JobStore::new();
    for _ in 0..7 {
        store
            .create_task(
                "a".to_string(),
                "x".to_string(),
                None,
                Timestamp { unix: 1760227200, year: 2026, month: 3, day: 5 },
            )
            .unwrap();
    }
    let job = store.find_task(7).unwrap();
    assert_eq!(job.month(), "2026-03");
    assert_eq!(job.log_path(), "logs/2026-03/7.log");
}
