use tali::cli::{
    added_lines, insert_input, list_line, logs_request, parse_inputs, resolve_log_run_id,
    rewrite_shortcut_args, run_fails, InputArgError, LogsArgError, LogsFormat, LogsRequest,
};
use tali::logs::RunStatus;

fn args(words: &[&str]) -> Vec<String> {
    words.iter().map(|w| w.to_string()).collect()
}

#[test]
fn shortcut_runs_a_manifest() {
    assert_eq!(rewrite_shortcut_args(args(&["tali", "03", "--yes"])), args(&["tali", "run", "03", "--yes"]));
    assert_eq!(rewrite_shortcut_args(args(&["tali", "list"])), args(&["tali", "list"]));
    assert_eq!(rewrite_shortcut_args(args(&["tali", "--help"])), args(&["tali", "--help"]));
    assert_eq!(rewrite_shortcut_args(args(&["tali", "cleanup", "--dry-run"])), args(&["tali", "cleanup", "--dry-run"]));
    assert_eq!(rewrite_shortcut_args(args(&["tali"])), args(&["tali"]));
}

#[test]
fn parses_input_arguments() {
    let parsed = parse_inputs(&args(&["a=1", "b=x=y"]), &args(&["c=HOME_VAR"]), &[Some("/home".to_string())]).unwrap();
    assert_eq!(
        parsed,
        vec![("a".to_string(), "1".to_string()), ("b".to_string(), "x=y".to_string()), ("c".to_string(), "/home".to_string())]
    );
    assert_eq!(parse_inputs(&args(&["novalue"]), &[], &[]), Err(InputArgError::InputSyntax));
    assert_eq!(parse_inputs(&args(&[" =1"]), &[], &[]), Err(InputArgError::EmptyKey));
    assert_eq!(parse_inputs(&args(&["a=1", "a=2"]), &[], &[]), Err(InputArgError::Duplicate("a".to_string())));
    assert_eq!(parse_inputs(&[], &args(&["k=MISSING"]), &[None]), Err(InputArgError::EnvNotSet("MISSING".to_string())));
    assert_eq!(parse_inputs(&[], &args(&["k= "]), &[None]), Err(InputArgError::EmptyEnvName));
    assert_eq!(parse_inputs(&[], &args(&["k"]), &[None]), Err(InputArgError::EnvSyntax));
    let mut parsed = vec![("k".to_string(), "1".to_string())];
    assert_eq!(insert_input(&mut parsed, "k", "2".to_string()), Err(InputArgError::Duplicate("k".to_string())));
    assert_eq!(insert_input(&mut parsed, "j", "3".to_string()), Ok(()));
    assert_eq!(parsed.len(), 2);
}

#[test]
fn logs_arguments_and_targets() {
    assert_eq!(resolve_log_run_id("run-1", true, Some("run-2"), "run-3"), "run-1");
    assert_eq!(resolve_log_run_id("latest", true, Some("run-2"), "run-3"), "run-2");
    assert_eq!(resolve_log_run_id("latest", false, Some("run-2"), "run-3"), "run-3");
    assert_eq!(resolve_log_run_id("latest", true, None, "run-3"), "run-3");
    assert_eq!(logs_request("follow", Some("latest"), false, false), Ok(LogsRequest::Follow("latest".to_string())));
    assert_eq!(logs_request("follow", None, false, false), Err(LogsArgError::FollowTargetMissing));
    assert_eq!(logs_request("follow", Some("latest"), true, false), Err(LogsArgError::FollowWithFormat));
    assert_eq!(logs_request("latest", Some("x"), false, false), Err(LogsArgError::UnexpectedArgument));
    assert_eq!(logs_request("latest", None, false, true), Ok(LogsRequest::Show("latest".to_string(), LogsFormat::ForAi)));
}

#[test]
fn command_output_lines() {
    assert!(run_fails(RunStatus::Failed, false));
    assert!(run_fails(RunStatus::Aborted, false));
    assert!(!run_fails(RunStatus::Aborted, true));
    assert!(!run_fails(RunStatus::Success, false));
    assert_eq!(added_lines("01", "setup"), vec!["Added manifest:", "ID: 01", "Name: setup", "Run:", "tali 01"]);
    assert_eq!(list_line("01", "setup", "2024-01-01", None), "01  setup  2024-01-01  ");
}

#[test]
fn writing_out_the_shortcut_twice_changes_nothing() {
    let once = rewrite_shortcut_args(args(&["tali", "setup", "--dry-run"]));
    assert_eq!(rewrite_shortcut_args(once.clone()), once);
}

#[test]
fn names_the_variables_of_input_env_arguments() {
    assert_eq!(
        tali::cli::input_env_names(&args(&["k=HOME", "bad", "a=b=c"])),
        vec![Some("HOME".to_string()), None, Some("b=c".to_string())]
    );
}
