use tali::safety::{check_resolved, display_path, nearest_existing_path, safe_path, PathError};

#[test]
fn rejects_path_traversal() {
    let base = "/tmp/project";
    assert!(safe_path(base, "../secret", false, false).is_err());
    assert!(safe_path(base, "/tmp/secret", false, false).is_err());
}

#[test]
fn accepts_normal_project_relative_path() {
    assert!(safe_path("/tmp/project", "config/app.toml", false, false).is_ok());
}

#[test]
fn joins_and_allows_outside_paths_when_asked() {
    assert_eq!(safe_path("/tmp/project", "config/app.toml", false, false).unwrap(), "/tmp/project/config/app.toml");
    assert_eq!(safe_path("/tmp/project", "/etc/hosts", true, false).unwrap(), "/etc/hosts");
    assert_eq!(safe_path("/tmp/project/", "a", false, false).unwrap(), "/tmp/project/a");
    assert_eq!(safe_path("/p", "a/..b/c", false, false).unwrap(), "/p/a/..b/c");
    assert_eq!(safe_path("/p", "a/../c", false, false), Err(PathError::Traverses("a/../c".to_string())));
    assert_eq!(safe_path("/p", "/x", false, false), Err(PathError::Outside("/x".to_string())));
}

#[test]
fn resolved_paths_must_stay_inside() {
    assert_eq!(check_resolved("link/x", "/tmp/project", Some("/tmp/outside"), false), Err(PathError::ResolvesOutside("link/x".to_string())));
    assert_eq!(check_resolved("a", "/tmp/project", Some("/tmp/project/a"), false), Ok(()));
    assert_eq!(check_resolved("a", "/tmp/project", Some("/tmp/projectx"), false), Err(PathError::ResolvesOutside("a".to_string())));
    assert_eq!(check_resolved("a", "/tmp/project", None, false), Ok(()));
    assert_eq!(
        nearest_existing_path(&[("/p/a/b".to_string(), false), ("/p/a".to_string(), true), ("/p".to_string(), true)]),
        Some("/p/a".to_string())
    );
    assert_eq!(display_path("/p/a"), "/p/a");
}

#[test]
fn windows_path_rules() {
    assert_eq!(safe_path(r"C:\proj", r"C:\x", false, true), Err(PathError::Outside(r"C:\x".to_string())));
    assert_eq!(safe_path(r"C:\proj", "D:x", false, true), Err(PathError::Outside("D:x".to_string())));
    assert_eq!(safe_path(r"C:\proj", r"\x", false, true), Err(PathError::Outside(r"\x".to_string())));
    assert_eq!(safe_path(r"C:\proj", r"\\server\share\x", false, true), Err(PathError::Outside(r"\\server\share\x".to_string())));
    assert_eq!(safe_path(r"C:\proj", r"a\..\b", false, true), Err(PathError::Traverses(r"a\..\b".to_string())));
    assert_eq!(safe_path(r"C:\proj", r"config\app.toml", false, true).unwrap(), r"C:\proj\config\app.toml");
    assert_eq!(safe_path(r"C:\proj", "a/..b", false, true).unwrap(), r"C:\proj\a/..b");
    assert_eq!(safe_path(r"C:\proj", r"D:\x", true, true).unwrap(), r"D:\x");
    assert_eq!(safe_path(r"C:\proj", r"\x", true, true).unwrap(), r"C:\x");
    assert_eq!(safe_path("/p", r"a\..\b", false, false).unwrap(), r"/p/a\..\b");
    assert_eq!(safe_path("/p", "C:x", false, false).unwrap(), "/p/C:x");
}

#[test]
fn windows_resolved_paths() {
    assert_eq!(check_resolved("config", r"\\?\C:\proj", Some(r"\\?\C:\proj\config"), true), Ok(()));
    assert_eq!(check_resolved("config", r"\\?\C:\proj", Some(r"\\?\c:\proj\config"), true), Ok(()));
    assert_eq!(
        check_resolved("x", r"\\?\C:\proj", Some(r"\\?\C:\other"), true),
        Err(PathError::ResolvesOutside("x".to_string()))
    );
    assert_eq!(
        check_resolved("x", r"\\?\C:\proj", Some(r"\\?\C:\proj\x"), false),
        Err(PathError::ResolvesOutside("x".to_string()))
    );
}
