use tali::manifest::{InputSpec, Manifest, ManifestError, Step};
use tali::skill::{skill_backup_path, skill_files, skill_needs_backup, skill_target, SkillError};
use tali::store::{
    choose_manifest, find_global, find_project_manifest, generate_long_id, plan_new_entry, pointer_names_run, pointer_run_id,
    project_manifest_candidates, running_pointer_run_id, sanitize_filename, sort_entries_by_id,
    ManifestChoice, ManifestEntry, Store, StoreError,
};

fn entry(id: &str, name: &str) -> ManifestEntry {
    ManifestEntry { id: id.to_string(), name: name.to_string(), filename: format!("{id}-{name}.toml") }
}

#[test]
fn layout_of_the_data_directory() {
    let store = Store::from_data_dir("/data/tali".to_string(), false);
    assert_eq!(store.manifests_dir(), "/data/tali/manifests");
    assert_eq!(store.runs_dir(), "/data/tali/runs");
    assert_eq!(store.logs_dir(), "/data/tali/logs");
    assert_eq!(store.cache_dir(), "/data/tali/cache");
    assert_eq!(store.secrets_dir(), "/data/tali/secrets");
    assert_eq!(store.run_dir("run-1"), "/data/tali/runs/run-1");
    assert_eq!(store.index_path(), "/data/tali/manifests/index.json");
}

#[test]
fn new_entries_get_the_next_id_and_a_clean_file_name() {
    let entries = vec![entry("01", "setup"), entry("02", "deploy")];
    assert_eq!(
        plan_new_entry(&entries, "My App!"),
        Ok(("03".to_string(), "03-My-App.toml".to_string()))
    );
    assert_eq!(plan_new_entry(&entries, "setup"), Err(StoreError::DuplicateName("setup".to_string())));
    assert_eq!(sanitize_filename("--a b_c--"), "a-b_c");
    assert_eq!(find_global(&entries, "deploy"), Some(1));
    assert_eq!(find_global(&entries, "01"), Some(0));
    assert_eq!(find_global(&entries, "x"), None);
}

#[test]
fn entries_list_in_id_order() {
    let sorted = sort_entries_by_id(vec![entry("10", "c"), entry("02", "a"), entry("03", "b")]);
    let ids: Vec<&str> = sorted.iter().map(|e| e.id.as_str()).collect();
    assert_eq!(ids, vec!["02", "03", "10"]);
}

#[test]
fn project_manifests_and_pointers() {
    assert_eq!(
        project_manifest_candidates("/p", "setup", false),
        ("/p/.tali/setup.toml".to_string(), "/p/.tali/share/setup.toml".to_string())
    );
    assert_eq!(pointer_run_id(" run-1\n"), "run-1");
    let levels = vec![
        ("/p/nested".to_string(), false, false),
        ("/p".to_string(), true, true),
        ("/".to_string(), true, false),
    ];
    assert_eq!(find_project_manifest(&levels, "setup", false), Some(("/p".to_string(), "/p/.tali/setup.toml".to_string())));
    let shared_only = vec![("/p".to_string(), false, true)];
    assert_eq!(find_project_manifest(&shared_only, "setup", false), Some(("/p".to_string(), "/p/.tali/share/setup.toml".to_string())));
    assert_eq!(find_project_manifest(&levels[..1], "setup", false), None);
    assert_eq!(running_pointer_run_id("  \n"), None);
    assert!(pointer_names_run("run-1\n", "run-1"));
    let long = generate_long_id("20240101000000");
    assert_eq!(long.len(), 14 + 1 + 16);
    assert!(long.starts_with("20240101000000-"));
}

#[test]
fn skill_install_paths() {
    assert_eq!(skill_target("/skills", false), "/skills/tali-agent");
    assert_eq!(skill_backup_path("/skills", "20240101", false), "/skills/tali-agent.bak-20240101");
    assert_eq!(skill_needs_backup("/skills/tali-agent", true, false), Err(SkillError::Exists("/skills/tali-agent".to_string())));
    assert_eq!(skill_needs_backup("/skills/tali-agent", true, true), Ok(true));
    assert_eq!(skill_needs_backup("/skills/tali-agent", false, false), Ok(false));
    assert_eq!(skill_files().len(), 4);
}

fn valid_manifest() -> Manifest {
    Manifest {
        version: 1,
        name: "setup".to_string(),
        description: None,
        allow_outside_cwd: false,
        inputs: vec![InputSpec { name: "token".to_string(), prompt: "Token".to_string(), secret: true, required: true, default: None }],
        steps: vec![Step::Shell {
            name: Some("Install".to_string()),
            when: Some("os_is('linux') || os_is('macos')".to_string()),
            cmd: "npm install".to_string(),
            cwd: None,
            env: Vec::new(),
        }],
    }
}

#[test]
fn manifest_validation() {
    let m = valid_manifest();
    assert!(m.validate().is_ok());
    assert_eq!(m.steps[0].when(), Some("os_is('linux') || os_is('macos')"));
    assert_eq!(m.steps[0].kind(), "shell");
    assert_eq!(m.steps[0].plan_line(), "Shell: npm install");

    let mut dup = valid_manifest();
    dup.inputs.push(InputSpec { name: "token".to_string(), prompt: "Again".to_string(), secret: false, required: false, default: None });
    assert_eq!(dup.validate(), Err(ManifestError::DuplicateInputName("token".to_string())));

    let mut bad_when = valid_manifest();
    bad_when.steps = vec![Step::Shell { name: None, when: Some("file_exists(config)".to_string()), cmd: "echo ok".to_string(), cwd: None, env: Vec::new() }];
    assert!(matches!(bad_when.validate(), Err(ManifestError::InvalidWhen(1, _))));

    let mut version = valid_manifest();
    version.version = 2;
    assert_eq!(version.validate(), Err(ManifestError::UnsupportedVersion(2)));

    let mut empty_key = valid_manifest();
    empty_key.steps = vec![Step::ReplaceInFile {
        name: None,
        when: None,
        path: ".env".to_string(),
        replacements: vec![("".to_string(), "x".to_string())],
        require_match: true,
        expected_matches: None,
    }];
    assert_eq!(empty_key.validate(), Err(ManifestError::EmptyReplacementKey(1)));
}

#[test]
fn an_added_manifest_is_found_by_id_and_name() {
    let mut entries = vec![entry("01", "setup"), entry("x7", "deploy")];
    let (id, filename) = plan_new_entry(&entries, "build").unwrap();
    entries.push(ManifestEntry { id: id.clone(), name: "build".to_string(), filename });
    assert_eq!(find_global(&entries, &id), Some(2));
    assert_eq!(find_global(&entries, "build"), Some(2));
}

#[test]
fn resolves_by_id_and_name() {
    let (id, filename) = plan_new_entry(&[], "setup").unwrap();
    assert_eq!(id, "01");
    let entries = vec![ManifestEntry { id: id.clone(), name: "setup".to_string(), filename }];
    let cwd = vec![("/work".to_string(), true, false), ("/".to_string(), false, false)];
    assert_eq!(choose_manifest(&entries, "01", &cwd, false), ManifestChoice::Global(0));
    assert_eq!(choose_manifest(&entries, "setup", &cwd, false), ManifestChoice::Global(0));
    assert_eq!(
        choose_manifest(&entries, "deploy", &cwd, false),
        ManifestChoice::Project { root: "/work".to_string(), path: "/work/.tali/deploy.toml".to_string() }
    );
    let nothing = vec![("/".to_string(), false, false)];
    assert_eq!(choose_manifest(&entries, "deploy", &nothing, false), ManifestChoice::Missing);
}

#[test]
fn rejects_duplicate_input_names() {
    let manifest = Manifest {
        version: 1,
        name: "duplicate-inputs".to_string(),
        description: None,
        allow_outside_cwd: false,
        inputs: vec![
            InputSpec { name: "project_name".to_string(), prompt: "Project name".to_string(), secret: false, required: true, default: None },
            InputSpec { name: "project_name".to_string(), prompt: "Project name again".to_string(), secret: false, required: true, default: None },
        ],
        steps: vec![Step::Shell { name: None, when: None, cmd: "echo ok".to_string(), cwd: None, env: Vec::new() }],
    };
    let error = manifest.validate().unwrap_err();
    assert_eq!(error, ManifestError::DuplicateInputName("project_name".to_string()));
}

#[test]
fn rejects_invalid_when_condition() {
    let manifest = Manifest {
        version: 1,
        name: "invalid-when".to_string(),
        description: None,
        allow_outside_cwd: false,
        inputs: Vec::new(),
        steps: vec![Step::Shell {
            name: None,
            when: Some("file_exists(config)".to_string()),
            cmd: "echo ok".to_string(),
            cwd: None,
            env: Vec::new(),
        }],
    };
    let error = manifest.validate().unwrap_err();
    assert!(matches!(error, ManifestError::InvalidWhen(1, _)));
}
