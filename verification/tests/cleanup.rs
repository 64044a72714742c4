use tali::cleanup::{
    bytes_to_free, classify_run_entry, count_of_kind, deleted_run_ids, latest_was_deleted,
    make_report, newest_remaining_run, report_lines, sort_candidates, CleanupCandidate,
    CleanupKind, CleanupOptions, RunEntryClass, Timestamp,
};

fn cand(kind: CleanupKind, id: &str, path: &str, bytes: u64, secs: i64) -> CleanupCandidate {
    CleanupCandidate { kind, id: id.to_string(), path: path.to_string(), bytes, timestamp: Timestamp { secs, nanos: 0 } }
}

#[test]
fn candidates_sort_by_time_then_path() {
    let sorted = sort_candidates(vec![
        cand(CleanupKind::Cache, "c", "/d/cache/c", 1, 20),
        cand(CleanupKind::Run, "b", "/d/runs/b", 2, 10),
        cand(CleanupKind::Run, "a", "/d/runs/a", 3, 20),
    ]);
    let ids: Vec<&str> = sorted.iter().map(|c| c.id.as_str()).collect();
    assert_eq!(ids, vec!["b", "c", "a"]);
    assert_eq!(bytes_to_free(&sorted), 6);
    assert_eq!(deleted_run_ids(&sorted), vec!["b".to_string(), "a".to_string()]);
    assert_eq!(count_of_kind(&sorted, CleanupKind::Cache), 1);
}

#[test]
fn preview_reports_without_deleting() {
    let options = CleanupOptions { older_than: "30d".to_string(), dry_run: false, yes: false };
    let report = make_report(
        &options,
        Timestamp { secs: 100, nanos: 0 },
        vec![cand(CleanupKind::Run, "r1", "/d/runs/r1", 2048, 5)],
        vec!["run-live".to_string()],
    );
    assert!(!report.deleted);
    assert!(report.dry_run);
    assert_eq!(report.bytes_freed, 0);
    assert_eq!(report.bytes_to_free, 2048);
    assert_eq!(
        report_lines(&report),
        vec![
            "Cleanup preview:",
            "Runs older than 30d: 1",
            "Cache entries older than 30d: 0",
            "Estimated space to free: 2.0 KB",
            "Skipped running runs: run-live",
            "",
            "Nothing deleted. Run with:",
            "tali cleanup --older-than 30d --yes",
        ]
    );
}

#[test]
fn deletion_frees_all_candidates() {
    let options = CleanupOptions { older_than: "1h".to_string(), dry_run: false, yes: true };
    let report = make_report(
        &options,
        Timestamp { secs: 0, nanos: 0 },
        vec![cand(CleanupKind::Cache, "x", "/c/x", 42, 1), cand(CleanupKind::Run, "r", "/r/r", 8, 1)],
        Vec::new(),
    );
    assert!(report.deleted);
    assert_eq!(report.deleted_count, 2);
    assert_eq!(report.bytes_freed, 50);
    assert_eq!(
        report_lines(&report),
        vec!["Cleanup complete:", "Deleted run directories: 1", "Deleted cache entries: 1", "Freed: 50 B"]
    );
    let dry = CleanupOptions { older_than: "1h".to_string(), dry_run: true, yes: true };
    assert!(!make_report(&dry, Timestamp { secs: 0, nanos: 0 }, Vec::new(), Vec::new()).deleted);
}

#[test]
fn latest_pointer_follows_the_newest_remaining_run() {
    assert!(latest_was_deleted(&["a".to_string(), "b".to_string()], "b"));
    assert!(!latest_was_deleted(&["a".to_string()], "b"));
    let runs = vec![
        ("old".to_string(), Timestamp { secs: 1, nanos: 0 }),
        ("new".to_string(), Timestamp { secs: 5, nanos: 0 }),
        ("tie".to_string(), Timestamp { secs: 5, nanos: 0 }),
    ];
    assert_eq!(newest_remaining_run(&runs), Some("new".to_string()));
    assert_eq!(newest_remaining_run(&[]), None);
    assert_eq!(classify_run_entry("run-1", true, "run-1"), RunEntryClass::Running);
    assert_eq!(classify_run_entry("run-1", false, ""), RunEntryClass::NotRun);
    assert_eq!(classify_run_entry("run-2", true, "run-1"), RunEntryClass::Scan);
}
