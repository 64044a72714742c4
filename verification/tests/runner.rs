use tali::logs::{RunStatus, StepStatus};
use tali::manifest::{InputSpec, Manifest, Step};
use tali::runner::{
    backup_dir_name, confirm_answer, dry_run_manifest, error_step_record, file_path_for_log,
    generate_run_id, inspect_lines, interpolate_env, outcome_lines, plan_lines, progress_line,
    keys_ascending_exec, replace_placeholders, shell_command_for_log, shell_invocation, shell_step_record,
    skipped_step_record, status_for_exit, ReplaceError, RunProgress, SnippetBuffer,
};

fn write_step(name: &str, path: &str) -> Step {
    Step::WriteFile {
        name: Some(name.to_string()),
        when: None,
        path: path.to_string(),
        content: "hello".to_string(),
        overwrite: true,
        create_dirs: true,
    }
}

fn shell_step(cmd: &str, when: Option<&str>) -> Step {
    Step::Shell { name: None, when: when.map(str::to_string), cmd: cmd.to_string(), cwd: None, env: Vec::new() }
}

fn manifest() -> Manifest {
    Manifest {
        version: 1,
        name: "setup".to_string(),
        description: Some("Install dependencies.".to_string()),
        allow_outside_cwd: false,
        inputs: vec![InputSpec {
            name: "token".to_string(),
            prompt: "Token".to_string(),
            secret: true,
            required: true,
            default: None,
        }],
        steps: vec![shell_step("npm install", Some("os_is('linux')")), write_step("Write env", ".env")],
    }
}

#[test]
fn stops_at_the_first_failed_step() {
    let mut progress = RunProgress::new(2);
    assert_eq!(progress.next_step(), Some(1));
    let failed = shell_step_record(&shell_step("exit 7", None), 1, "exit 7", &[], 7, None, None);
    assert_eq!(failed.status, StepStatus::Failed);
    progress.record(failed);
    assert_eq!(progress.status(), RunStatus::Failed);
    assert_eq!(progress.failed_step_index(), Some(1));
    assert_eq!(progress.next_step(), None);
    progress.finish();
    assert_eq!(progress.status(), RunStatus::Failed);
    assert_eq!(progress.steps().len(), 1);
    assert_eq!(progress.total_steps(), 2);
}

#[test]
fn succeeds_when_every_step_ran_or_was_skipped() {
    let step = shell_step("echo", Some("input_equals('target', 'prod')"));
    let mut progress = RunProgress::new(2);
    progress.record(skipped_step_record(&step, 1, "input_equals('target', 'prod')", &[]));
    progress.record(shell_step_record(&step, 2, "echo", &[], 0, Some("hi".to_string()), None));
    assert_eq!(progress.next_step(), None);
    progress.finish();
    assert_eq!(progress.status(), RunStatus::Success);
    assert_eq!(progress.failed_step_index(), None);
    assert_eq!(outcome_lines(&progress, "/runs/r1"), vec!["Run succeeded.", "Logs saved to:", "/runs/r1"]);
}

#[test]
fn skipped_steps_say_why() {
    let record = skipped_step_record(&write_step("Skip prod", "prod.txt"), 3, "input_equals('token', 's3cret')", &["s3cret".to_string()]);
    assert_eq!(record.status, StepStatus::Skipped);
    assert_eq!(record.skip_reason.as_deref(), Some("when evaluated to false"));
    assert_eq!(record.when.as_deref(), Some("input_equals('token', '********')"));
    assert_eq!(record.step_type, "write_file");
    assert_eq!(record.name.as_deref(), Some("Skip prod"));
}

#[test]
fn failure_lines_name_the_failed_step() {
    let mut progress = RunProgress::new(3);
    progress.record(shell_step_record(&shell_step("true", None), 1, "true", &[], 0, None, None));
    let step = Step::Shell { name: Some("Fail".to_string()), when: None, cmd: "exit 13".to_string(), cwd: None, env: Vec::new() };
    progress.record(shell_step_record(&step, 2, "exit 13", &[], 13, None, None));
    progress.finish();
    assert_eq!(
        outcome_lines(&progress, "/runs/r2"),
        vec![
            "Run failed.",
            "Failed step: 2 / 3",
            "Step name: Fail",
            "Exit code: 13",
            "Logs saved to:",
            "/runs/r2",
            "For AI repair, share:",
            "tali logs latest",
        ]
    );
}

#[test]
fn error_records_mask_secrets() {
    let values = vec![("token".to_string(), "tok-123".to_string())];
    let secrets = vec!["tok-123".to_string()];
    let step = shell_step("deploy {{token}}", None);
    let record = error_step_record(&step, 1, &values, &secrets, "failed with tok-123");
    assert_eq!(record.status, StepStatus::Failed);
    assert_eq!(record.command.as_deref(), Some("deploy ********"));
    assert_eq!(record.stderr_snippet.as_deref(), Some("failed with ********"));
    assert_eq!(record.path, None);
    assert_eq!(shell_command_for_log(&step, &[], &secrets), None);
    assert_eq!(file_path_for_log(&write_step("w", "out/{{token}}.txt"), &values, &secrets).as_deref(), Some("out/********.txt"));
}

#[test]
fn snippets_keep_lines_until_the_limit() {
    let mut buffer = SnippetBuffer::new();
    assert_eq!(buffer.snippet(), None);
    buffer.push("one".to_string());
    buffer.push("two".to_string());
    assert_eq!(buffer.snippet().as_deref(), Some("one\ntwo"));

    let mut big = SnippetBuffer::new();
    let long = "x".repeat(3999);
    big.push(long.clone());
    big.push("y".to_string());
    big.push("z".to_string());
    assert_eq!(big.snippet(), Some(format!("{long}\ny")));

    let mut wide = SnippetBuffer::new();
    wide.push("é".repeat(2000));
    wide.push("dropped".to_string());
    assert_eq!(wide.snippet(), Some("é".repeat(2000)));
}

#[test]
fn plan_and_dry_run_lines() {
    let m = manifest();
    assert_eq!(
        plan_lines(&m, false),
        vec![
            "Manifest: setup",
            "Install dependencies.",
            "Plan:",
            "1. Shell: npm install",
            "   When: os_is('linux')",
            "2. Write file: .env",
            "Inputs required:",
            "- token [secret]",
        ]
    );
    let dry = dry_run_manifest(&m);
    assert_eq!(dry[2], "Will do:");
    assert_eq!(
        dry[dry.len() - 4..].to_vec(),
        vec!["Files that may be written:", "- .env", "Commands that may be executed:", "- npm install"]
    );
    let inspect = inspect_lines(&m);
    assert_eq!(inspect[0], "Name: setup");
    assert_eq!(inspect[1], "Description: Install dependencies.");
    assert_eq!(inspect[2], "Required inputs:");
    assert_eq!(inspect[3], "- token (required, secret)");
}

#[test]
fn dry_run_without_commands_lists_none() {
    let mut m = manifest();
    m.steps = vec![Step::Mkdir { name: None, when: None, path: "config".to_string() }];
    m.inputs = Vec::new();
    m.description = None;
    m.allow_outside_cwd = true;
    assert_eq!(
        dry_run_manifest(&m),
        vec![
            "Manifest: setup",
            "Warning: this manifest allows file operations outside the working directory.",
            "Will do:",
            "1. Create directory: config",
            "Files that may be written:",
            "- config",
            "Commands that may be executed:",
            "- none",
        ]
    );
}

#[test]
fn replaces_placeholders_and_counts() {
    let reps = vec![("#N#".to_string(), "demo".to_string()), ("__KEY__".to_string(), "abc".to_string())];
    assert!(keys_ascending_exec(&reps));
    assert_eq!(
        replace_placeholders("K=__KEY__ N=#N# again __KEY__", &reps, true, Some(3)),
        Ok(("K=abc N=demo again abc".to_string(), 3))
    );
    assert_eq!(
        replace_placeholders("nothing", &reps, true, None),
        Err(ReplaceError::NoMatch("#N#".to_string()))
    );
    assert_eq!(
        replace_placeholders("__KEY__", &reps, false, Some(2)),
        Err(ReplaceError::UnexpectedCount { expected: 2, actual: 1 })
    );
    assert_eq!(replace_placeholders("__KEY__", &reps, false, None), Ok(("abc".to_string(), 1)));
    let chained = vec![("A".to_string(), "x".to_string()), ("B".to_string(), "A".to_string())];
    assert!(keys_ascending_exec(&chained));
    assert_eq!(replace_placeholders("B", &chained, false, None), Ok(("A".to_string(), 1)));
    let unordered = vec![("B".to_string(), "A".to_string()), ("A".to_string(), "x".to_string())];
    assert!(!keys_ascending_exec(&unordered));
    assert!(!keys_ascending_exec(&[("A".to_string(), "1".to_string()), ("A".to_string(), "2".to_string())]));
}

#[test]
fn small_runner_decisions() {
    assert!(confirm_answer(" Y\n"));
    assert!(confirm_answer("yes"));
    assert!(!confirm_answer("no"));
    assert_eq!(status_for_exit(0), StepStatus::Success);
    assert_eq!(status_for_exit(-1), StepStatus::Failed);
    assert_eq!(backup_dir_name(3), "step-03");
    assert_eq!(backup_dir_name(12), "step-12");
    assert_eq!(progress_line(false, 1, 2, &shell_step("ls", None)), "Running step 1/2: shell");
    assert_eq!(progress_line(true, 2, 2, &write_step("W", "a")), "Skipping step 2/2: W");
    let (program, args) = shell_invocation("echo hi", false, false);
    assert_eq!(program, "sh");
    assert_eq!(args, vec!["-lc", "echo hi"]);
    let (program, _) = shell_invocation("echo hi", true, false);
    assert_eq!(program, "powershell");
}

#[test]
fn run_ids_have_the_documented_shape() {
    let id = generate_run_id("20240102030405");
    assert!(id.starts_with("run-20240102030405-"));
    assert_eq!(id.len(), "run-20240102030405-".len() + 8);
    assert!(id["run-20240102030405-".len()..].chars().all(|c| c.is_ascii_alphanumeric()));
}

#[test]
fn env_values_are_interpolated_in_order() {
    let values = vec![("k".to_string(), "v".to_string())];
    let env = vec![("A".to_string(), "{{k}}".to_string()), ("B".to_string(), "plain".to_string())];
    assert_eq!(
        interpolate_env(&env, &values).unwrap(),
        vec![("A".to_string(), "v".to_string()), ("B".to_string(), "plain".to_string())]
    );
    assert!(interpolate_env(&[("A".to_string(), "{{missing}}".to_string())], &values).is_err());
}

#[test]
fn replace_records_log_only_the_count() {
    let step = Step::ReplaceInFile {
        name: Some("Fill".to_string()),
        when: None,
        path: ".env".to_string(),
        replacements: vec![("__K__".to_string(), "{{k}}".to_string())],
        require_match: true,
        expected_matches: Some(1),
    };
    let record = tali::runner::replace_step_record(&step, 2, "/p/.env", &[], None, 1);
    assert_eq!(record.stdout_snippet.as_deref(), Some("replacements: 1"));
    assert_eq!(record.step_type, "replace_in_file");
    assert_eq!(record.path.as_deref(), Some("/p/.env"));
}
