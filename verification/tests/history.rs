use courier::api::routes::{history_content, history_entries, remove_listed};
use courier::db::delete_by_timestamps_sql;
use courier::scheduler::task::TaskStatus;
use courier::scheduler::{parse_status, record_finished, record_started, status_text, ExecutionRecord, HISTORY_LIMIT};

fn started(name: &str, at: &str) -> ExecutionRecord {
    ExecutionRecord::running(name, at)
}

#[test]
fn running_record_is_appended() {
    let mut hist = Vec::new();
    record_started(&mut hist, started("daily", "2026-01-01T09:00:00+08:00"));
    assert_eq!(hist.len(), 1);
    assert_eq!(hist[0].status, TaskStatus::Running);
    assert_eq!(hist[0].duration_ms, 0);
    assert!(hist[0].completed_at.is_none());
}

#[test]
fn finished_record_replaces_its_running_record() {
    let mut hist = Vec::new();
    record_started(&mut hist, started("daily", "t1"));
    record_started(&mut hist, started("weekly", "t2"));
    let done = ExecutionRecord::finished("daily", "t1", "t3", 5000, Ok((10, "digest".to_string())));
    record_finished(&mut hist, done);
    assert_eq!(hist.len(), 2);
    assert_eq!(hist[0].task_name, "daily");
    assert_eq!(hist[0].status, TaskStatus::Success);
    assert_eq!(hist[0].articles_count, 10);
    assert_eq!(hist[0].digest_content.as_deref(), Some("digest"));
    assert_eq!(hist[0].completed_at.as_deref(), Some("t3"));
    assert_eq!(hist[1].status, TaskStatus::Running);
}

#[test]
fn failed_record_without_running_one_is_appended() {
    let mut hist = vec![started("a", "t0")];
    let failed = ExecutionRecord::finished("b", "t1", "t2", 3000, Err("Network timeout".to_string()));
    record_finished(&mut hist, failed);
    assert_eq!(hist.len(), 2);
    assert_eq!(hist[1].status, TaskStatus::Failed);
    assert_eq!(hist[1].error_message.as_deref(), Some("Network timeout"));
    assert_eq!(hist[1].articles_count, 0);
    assert!(hist[1].digest_content.is_none());
}

#[test]
fn history_keeps_last_hundred() {
    let mut hist: Vec<ExecutionRecord> = (0..100).map(|i| started("task", &format!("t{}", i))).collect();
    let done = ExecutionRecord::finished("other", "new", "end", 1, Ok((1, "d".to_string())));
    record_finished(&mut hist, done);
    assert_eq!(HISTORY_LIMIT, 100);
    assert_eq!(hist.len(), 100);
    assert_eq!(hist[0].executed_at, "t1");
    assert_eq!(hist[99].executed_at, "new");
}

#[test]
fn status_names_round_trip() {
    for s in [TaskStatus::Running, TaskStatus::Success, TaskStatus::Failed] {
        assert_eq!(parse_status(status_text(s)), s);
    }
    assert_eq!(parse_status("whatever"), TaskStatus::Failed);
    assert_eq!(parse_status("success"), TaskStatus::Failed);
}

#[test]
fn history_is_listed_newest_first() {
    let mut hist = vec![started("a", "t1"), started("b", "t2")];
    hist[0] = ExecutionRecord::finished("a", "t1", "t3", 7, Ok((2, "x".to_string())));
    let entries = history_entries(&hist);
    assert_eq!(entries.len(), 2);
    assert_eq!(entries[0].task_name, "b");
    assert_eq!(entries[0].status, "Running");
    assert!(!entries[0].has_content);
    assert_eq!(entries[1].status, "Success");
    assert!(entries[1].has_content);
    assert_eq!(history_content(&hist, 1).unwrap().content.as_deref(), Some("x"));
    assert!(history_content(&hist, 0).unwrap().content.is_none());
    assert!(history_content(&hist, 2).is_none());
}

#[test]
fn listed_records_are_removed() {
    let mut hist = vec![started("a", "t1"), started("b", "t2"), started("c", "t3")];
    remove_listed(&mut hist, &vec!["t1".to_string(), "t3".to_string(), "zz".to_string()]);
    assert_eq!(hist.len(), 1);
    assert_eq!(hist[0].task_name, "b");
}

#[test]
fn delete_statement_numbers_parameters() {
    assert_eq!(
        delete_by_timestamps_sql(3),
        "DELETE FROM execution_history WHERE executed_at IN (?1, ?2, ?3)"
    );
    assert_eq!(delete_by_timestamps_sql(1), "DELETE FROM execution_history WHERE executed_at IN (?1)");
}
