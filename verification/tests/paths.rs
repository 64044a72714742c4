use tali::paths::{is_absolute_exec, join_path, path_components_exec, relative_exec};

fn comps(path: &str, windows: bool) -> Vec<String> {
    path_components_exec(path, windows).into_iter().map(|c| c.into_iter().collect()).collect()
}

#[test]
fn joins_by_platform() {
    assert_eq!(join_path("/a", "b", false), "/a/b");
    assert_eq!(join_path("/a/", "b", false), "/a/b");
    assert_eq!(join_path("/a", "/b", false), "/b");
    assert_eq!(join_path("", "b", false), "b");
    assert_eq!(join_path(r"C:\a", "b", true), r"C:\a\b");
    assert_eq!(join_path("C:", "b", true), "C:b");
    assert_eq!(join_path(r"C:\a", r"\b", true), r"C:\b");
    assert_eq!(join_path(r"C:\a", r"D:\b", true), r"D:\b");
    assert_eq!(join_path(r"\\server\share", "x", true), r"\\server\share\x");
    assert_eq!(join_path(r"\\?\C:\proj", "a/./b/../c", true), r"\\?\C:\proj\a\c");
    assert_eq!(join_path(r"\\?\C:\proj", r"\x", true), r"\\?\C:\x");
}

#[test]
fn components_by_platform() {
    assert_eq!(comps("/a//b/./c/", false), vec!["/", "a", "b", "c"]);
    assert_eq!(comps("./a", false), vec![".", "a"]);
    assert_eq!(comps(r"a\b", false), vec![r"a\b"]);
    assert_eq!(comps(r"a\b/c", true), vec!["a", "b", "c"]);
    assert_eq!(comps(r"C:\a", true), vec![r"\Dc", r"\", "a"]);
    assert_eq!(comps("c:a", true), vec![r"\Dc", "a"]);
    assert_eq!(comps(r"\\server\share\x", true), vec![r"\Userver\share", r"\", "x"]);
    assert_eq!(comps(r"\\?\C:\a\.\b", true), vec![r"\Kc", r"\", "a", ".", "b"]);
    assert_eq!(comps(r"\\?\UNC\srv\sh\x", true), vec![r"\Wsrv\sh", r"\", "x"]);
    assert_eq!(comps(r"\\.\COM1", true), vec![r"\NCOM1", r"\"]);
    assert_eq!(comps(r"\\x", true), vec![r"\", "x"]);
    assert!(is_absolute_exec(&r"C:\x".chars().collect::<Vec<char>>(), true));
    assert!(!is_absolute_exec(&"C:x".chars().collect::<Vec<char>>(), true));
    assert!(!is_absolute_exec(&r"\x".chars().collect::<Vec<char>>(), true));
    assert!(is_absolute_exec(&"/x".chars().collect::<Vec<char>>(), false));
    assert_eq!(relative_exec(r"C:\p\.tali\x", r"c:\p", true).map(|v| v.len()), Some(2));
    assert_eq!(relative_exec(r"C:\p\x", r"C:p", true), None);
}
