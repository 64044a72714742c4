use tali::doctor::{common_tools, doctor_lines, insert_tool, tool_found, version_from_output, PlatformInfo, ToolVersion};
use tali::self_test::{
    check_cache_write, check_completion_generation, check_doctor, check_store_layout,
    overall_status, passed, report_lines, SelfTestStatus,
};
use tali::doctor::capture_tool;
use tali::store::Store;

#[test]
fn tools_depend_on_the_platform() {
    let linux = common_tools(false, false);
    assert_eq!(linux.len(), 10);
    assert_eq!(linux[0], "git");
    assert_eq!(common_tools(true, false).last().map(String::as_str), Some("brew"));
    assert_eq!(common_tools(false, true).last().map(String::as_str), Some("winget"));
}

#[test]
fn versions_come_from_the_first_line() {
    assert_eq!(version_from_output("git version 2.40\nmore", ""), Some("git version 2.40".to_string()));
    assert_eq!(version_from_output("", "  Python 3.11 \n"), Some("Python 3.11".to_string()));
    assert_eq!(version_from_output("", ""), None);
    assert_eq!(version_from_output("\nsecond", ""), None);
    assert!(tool_found(true, false, true, false));
    assert!(!tool_found(false, true, false, false));
}

#[test]
fn tools_stay_in_name_order() {
    let mut tools: Vec<(String, ToolVersion)> = Vec::new();
    insert_tool(&mut tools, "npm".to_string(), ToolVersion { found: false, version: None });
    insert_tool(&mut tools, "git".to_string(), ToolVersion { found: true, version: Some("2".to_string()) });
    insert_tool(&mut tools, "npm".to_string(), ToolVersion { found: true, version: None });
    let names: Vec<&str> = tools.iter().map(|t| t.0.as_str()).collect();
    assert_eq!(names, vec!["git", "npm"]);
    let info = PlatformInfo {
        os: "linux".to_string(),
        architecture: "x86_64".to_string(),
        current_directory: "/p".to_string(),
        shell: None,
        path: Some("/bin".to_string()),
        tali_version: "0.1.3".to_string(),
        rustc_version: None,
        tools,
    };
    let lines = doctor_lines(&info);
    assert_eq!(lines[4], "Shell: <unknown>");
    assert_eq!(lines[7], "Rust binary version: <missing>");
    assert_eq!(lines[9], "- git: 2");
    assert_eq!(lines[10], "- npm: found");
}

#[test]
fn self_test_checks() {
    let checks = vec![
        check_doctor("linux", "x86_64", "0.1.3"),
        passed("runs_dir", "/d/runs"),
        check_cache_write("/d/cache/self-test.tmp", None),
        check_completion_generation(120),
    ];
    assert_eq!(checks[0].detail, "linux / x86_64 / tali 0.1.3");
    assert_eq!(checks[3].detail, "120 bytes");
    assert_eq!(overall_status(&checks), SelfTestStatus::Passed);
    let layout = check_store_layout(&Store::from_data_dir("/d".to_string(), false), &[true, true, false, true, true]);
    assert_eq!(layout[0].detail, "/d/manifests");
    assert_eq!(layout[4].name, "secrets_dir");
    let failing = vec![passed("a", "ok"), layout[2].clone()];
    assert_eq!(failing[1].detail, "missing directory /d/logs");
    assert_eq!(overall_status(&failing), SelfTestStatus::Failed);
    assert_eq!(check_doctor("", "x", "1").status, SelfTestStatus::Failed);
    assert_eq!(check_completion_generation(0).detail, "generated completion was empty");
    assert_eq!(
        capture_tool(Some((false, String::new(), "usage: x\n".to_string()))),
        ToolVersion { found: true, version: Some("usage: x".to_string()) }
    );
    assert_eq!(capture_tool(None), ToolVersion { found: false, version: None });
    assert_eq!(
        report_lines(SelfTestStatus::Failed, &failing),
        vec!["Tali self-test", "Status: Failed", "- a: Passed (ok)", "- logs_dir: Failed (missing directory /d/logs)"]
    );
}
