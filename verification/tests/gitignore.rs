use tali::gitignore::{
    choice_outcome, find_git_root, gitignore_step, ignore_block_to_append, is_tali_ignore_pattern,
    private_tali_manifest_root, read_choice, shared_tali_manifest, split_lines, tali_is_ignored,
    GitignoreAction, GitignoreChoice, GitignoreOutcome, GitignoreStep,
};

#[test]
fn detects_private_tali_manifest() {
    let root = "/tmp/project";
    let path = "/tmp/project/.tali/setup.toml";
    assert_eq!(private_tali_manifest_root(path, root, false), Some("/tmp/project/.tali".to_string()));
    assert!(!shared_tali_manifest(path, root, false));
}

#[test]
fn skips_shared_tali_manifest() {
    let root = "/tmp/project";
    let path = "/tmp/project/.tali/share/setup.toml";
    assert_eq!(private_tali_manifest_root(path, root, false), None);
    assert!(shared_tali_manifest(path, root, false));
}

#[test]
fn manifests_outside_the_project_tali_directory_are_neither() {
    assert_eq!(private_tali_manifest_root("/tmp/other/.tali/x.toml", "/tmp/project", false), None);
    assert!(!shared_tali_manifest("/tmp/project/setup.toml", "/tmp/project", false));
    assert_eq!(
        private_tali_manifest_root("/tmp/project//./.tali/x.toml", "/tmp/project/", false),
        Some("/tmp/project/.tali".to_string())
    );
}

#[test]
fn recognizes_tali_ignore_patterns() {
    assert!(is_tali_ignore_pattern(".tali/"));
    assert!(is_tali_ignore_pattern("/.tali/**"));
    assert!(!is_tali_ignore_pattern("!.tali/share/"));
    assert!(!is_tali_ignore_pattern("# .tali/"));
}

#[test]
fn appends_recommended_ignore_block() {
    let existing = "/target/\n";
    let content = format!("{}{}", existing, ignore_block_to_append(Some(existing)));
    assert!(content.contains(".tali/"));
    assert!(content.contains("!.tali/share/*.toml"));
    assert!(tali_is_ignored(&content));
}

#[test]
fn block_starts_a_new_line_when_content_does_not_end_one() {
    assert_eq!(
        ignore_block_to_append(Some("/target/")),
        "\n\n# Tali private manifests and runtime files\n.tali/\n!.tali/share/\n!.tali/share/*.toml\n"
    );
    assert_eq!(
        ignore_block_to_append(None),
        "\n# Tali private manifests and runtime files\n.tali/\n!.tali/share/\n!.tali/share/*.toml\n"
    );
    assert!(tali_is_ignored(&ignore_block_to_append(None)));
}

#[test]
fn splits_lines_like_str_lines() {
    assert_eq!(split_lines("a\r\nb\n\nc"), vec!["a", "b", "", "c"]);
    assert_eq!(split_lines("x\n"), vec!["x"]);
    assert!(!tali_is_ignored("/target/\n.talis\n"));
    assert!(tali_is_ignored("  .tali  \r\n"));
}

#[test]
fn reads_prompt_answers() {
    assert_eq!(read_choice(" Yes \n"), GitignoreChoice::Add);
    assert_eq!(read_choice("NEVER"), GitignoreChoice::Never);
    assert_eq!(read_choice(""), GitignoreChoice::Skip);
    assert_eq!(choice_outcome(GitignoreChoice::Never), GitignoreOutcome::Suppressed);
}

#[test]
fn check_order_of_gitignore_protection() {
    assert_eq!(
        gitignore_step(false, true, true, false, false, GitignoreAction::Prompt),
        GitignoreStep::Finish(GitignoreOutcome::SharedManifest)
    );
    assert_eq!(
        gitignore_step(true, false, true, false, true, GitignoreAction::NoticeOnly),
        GitignoreStep::Finish(GitignoreOutcome::AlreadyIgnored)
    );
    assert_eq!(
        gitignore_step(true, false, true, false, false, GitignoreAction::NoticeOnly),
        GitignoreStep::PrintNotice
    );
    assert_eq!(
        gitignore_step(true, false, false, false, false, GitignoreAction::Prompt),
        GitignoreStep::Finish(GitignoreOutcome::NotGitRepository)
    );
}

#[test]
fn git_root_is_the_nearest_directory_with_git() {
    let chain = vec![("/p/a".to_string(), false), ("/p".to_string(), true), ("/".to_string(), true)];
    assert_eq!(find_git_root(&chain), Some("/p".to_string()));
    assert_eq!(find_git_root(&chain[..1]), None);
}

#[test]
fn windows_project_manifests() {
    let root = r"C:\proj";
    assert_eq!(private_tali_manifest_root(r"C:\proj\.tali\x.toml", root, true), Some(r"C:\proj\.tali".to_string()));
    assert_eq!(private_tali_manifest_root(r"c:/proj/.tali/x.toml", root, true), Some(r"C:\proj\.tali".to_string()));
    assert!(shared_tali_manifest(r"C:\proj\.tali\share\x.toml", root, true));
    assert!(!shared_tali_manifest(r"C:\proj\.tali\share\x.toml", root, false));
}
