use task_runner::view::{enumerate_tasks, today, Task};

fn task(status: &str, created_at: &str, output: Option<&str>) -> Task {
    Task {
        id: 1,
        name: "build".to_string(),
        output: output.map(|o| o.to_string()),
        status: status.to_string(),
        created_at: created_at.to_string(),
    }
}

#[test]
fn month_and_date_slice_the_timestamp_text() {
    let t = task("Pending", "2026-10-12T07:30:00Z", None);
    assert_eq!(t.month(), "2026-10");
    assert_eq!(t.date(), "2026-10-12");
}

#[test]
fn each_status_has_its_emoji() {
    assert_eq!(task("Pending", "", None).status_emoji(), "\u{23f3}");
    assert_eq!(task("Running", "", None).status_emoji(), "\u{1f3d7}\u{fe0f}");
    assert_eq!(task("Success", "", None).status_emoji(), "\u{2705}");
    assert_eq!(task("Failed", "", None).status_emoji(), "\u{274c}");
    assert_eq!(task("Unknown", "", None).status_emoji(), "\u{2753}");
}

#[test]
fn filename_is_the_text_after_the_last_slash() {
    assert_eq!(task("Success", "", Some("out/app.bin")).filename(), "app.bin");
    assert_eq!(task("Success", "", Some("app.bin")).filename(), "app.bin");
    assert_eq!(task("Success", "", Some("a/b/c.txt")).filename(), "c.txt");
    assert_eq!(task("Success", "", Some("out/")).filename(), "");
    assert_eq!(task("Success", "", None).filename(), "");
}

#[test]
fn only_jobs_created_today_can_rerun() {
    let now = today();
    // the clock renders today as a ten-character date
    assert_eq!(now.len(), 10);
    assert_eq!(&now[4..5], "-");
    assert_eq!(&now[7..8], "-");
    let fresh = task("Failed", &format!("{now}T10:00:00Z"), None);
    assert!(fresh.can_rerun());
    let stale = task("Failed", "1999-01-01T10:00:00Z", None);
    assert!(!stale.can_rerun());
}

#[test]
fn enumerate_pairs_each_task_with_its_id() {
    let tasks = vec![
        Task { id: 4, ..task("Pending", "", None) },
        Task { id: 9, ..task("Failed", "", None) },
    ];
    let pairs = enumerate_tasks(&tasks);
    assert_eq!(pairs.len(), 2);
    assert_eq!(pairs[0].0, 4);
    assert_eq!(pairs[1].0, 9);
    assert_eq!(pairs[0].1.id, 4);
    assert_eq!(pairs[1].1.id, 9);
}
