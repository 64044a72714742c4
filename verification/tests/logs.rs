use tali::logs::{
    exit_code_text, failed_step_lines, find_step, follow_should_stop, run_status_text, RunStatus,
    StepRecord, StepStatus,
};

fn record(index: usize, status: StepStatus, exit_code: Option<i32>) -> StepRecord {
    StepRecord {
        index,
        name: None,
        step_type: "shell".to_string(),
        status,
        command: None,
        path: None,
        when: None,
        skip_reason: None,
        exit_code,
        stdout_snippet: None,
        stderr_snippet: None,
        backup_path: None,
    }
}

#[test]
fn summary_names_the_failed_step() {
    let steps = vec![record(1, StepStatus::Success, Some(0)), record(2, StepStatus::Failed, Some(-2))];
    assert_eq!(find_step(&steps, 2), Some(1));
    assert_eq!(find_step(&steps, 3), None);
    assert_eq!(
        failed_step_lines(&steps, Some(2), 4),
        vec!["Failed step: 2 / 4", "Step name: <unnamed>", "Exit code: -2"]
    );
    assert!(failed_step_lines(&steps, None, 4).is_empty());
    assert!(failed_step_lines(&steps, Some(9), 4).is_empty());
    assert_eq!(exit_code_text(i32::MIN), "-2147483648");
    assert_eq!(run_status_text(RunStatus::Success), "success");
}

#[test]
fn following_stops_after_the_run_and_its_events_end() {
    assert!(!follow_should_stop(None, true, 0, 10));
    assert!(!follow_should_stop(Some(RunStatus::Running), true, 10, 10));
    assert!(!follow_should_stop(Some(RunStatus::Success), true, 5, 10));
    assert!(follow_should_stop(Some(RunStatus::Failed), true, 10, 10));
    assert!(follow_should_stop(Some(RunStatus::Success), false, 0, 0));
}
