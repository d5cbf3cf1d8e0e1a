use conescope::git_view::git_entry_label;
use conescope::paths::{
    duplicate_target, is_valid_rename, rename_stays_within_root, shorten_path, unique_path, unique_path_candidate,
};

#[test]
fn valid_rename_names() {
    assert!(is_valid_rename("hello.txt"));
    assert!(is_valid_rename("my-file"));
    assert!(is_valid_rename(".gitignore"));
    assert!(is_valid_rename("file..txt"));
    assert!(is_valid_rename("..."));
    assert!(is_valid_rename("a"));
}

#[test]
fn invalid_rename_names() {
    assert!(!is_valid_rename(""));
    assert!(!is_valid_rename("."));
    assert!(!is_valid_rename(".."));
    assert!(!is_valid_rename("foo/bar"));
    assert!(!is_valid_rename("../escape"));
    assert!(!is_valid_rename("foo\0bar"));
}

#[test]
fn rename_path_stays_within_root() {
    let root = "/tmp/project";
    let good = "/tmp/project/src/file.rs";
    let bad = "/tmp/other/file.rs";
    let traversal = "/tmp/project/../other/file.rs";

    assert!(rename_stays_within_root(good, root, None));
    assert!(!rename_stays_within_root(bad, root, None));
    assert!(!rename_stays_within_root(traversal, root, None));
}

#[test]
fn rename_cannot_escape_project_root() {
    let root = "/projects/myapp";
    let escaped = "/projects/other-app/stolen.rs";
    assert!(
        !rename_stays_within_root(escaped, root, None),
        "rename must not allow files outside project root"
    );
}

#[test]
fn rename_within_root_uses_resolved_paths_when_given() {
    let resolved = Some(("/real/project/a.rs".to_string(), "/real/project".to_string()));
    assert!(rename_stays_within_root("/link/x.rs", "/other", resolved));
    let resolved = Some(("/real/elsewhere/a.rs".to_string(), "/real/project".to_string()));
    assert!(!rename_stays_within_root("/real/project/a.rs", "/real/project", resolved));
    // A sibling folder sharing a name prefix is not inside the root.
    assert!(!rename_stays_within_root("/tmp/project-two/a.rs", "/tmp/project", None));
    assert!(rename_stays_within_root("/tmp/project/./src/../a.rs", "/tmp/project", None));
}

#[test]
fn unique_path_returns_original_if_not_exists() {
    let base = "/tmp/conescope_test_unique_not_exists";
    assert_eq!(unique_path(base, false, &[]), base);
}

#[test]
fn unique_path_increments_when_exists() {
    let base = "/tmp/conescope_test_unique_exists";
    let result = unique_path(base, true, &[false]);
    assert_ne!(result, base);
    assert!(result.contains("-1"));
    assert_eq!(result, "/tmp/conescope_test_unique_exists-1");
}

#[test]
fn unique_path_skips_taken_candidates_and_keeps_extension() {
    assert_eq!(unique_path("/p/notes.txt", true, &[true, true, false]), "/p/notes-3.txt");
    // All 99 alternatives taken: the base is returned.
    let all = vec![true; 120];
    assert_eq!(unique_path("/p/notes.txt", true, &all), "/p/notes.txt");
    // No probe yet answered: the base is returned.
    assert_eq!(unique_path("/p/notes.txt", true, &[]), "/p/notes.txt");
    assert_eq!(unique_path_candidate("/p/a.tar.gz", 12), "/p/a.tar-12.gz");
}

#[test]
fn duplicate_target_names_a_copy() {
    assert_eq!(duplicate_target("/p/src/main.rs"), "/p/src/main copy.rs");
    assert_eq!(duplicate_target("/p/Makefile"), "/p/Makefile copy");
}

#[test]
fn shorten_path_writes_home_as_tilde() {
    assert_eq!(shorten_path("/home/ann/code", "/home/ann"), "~/code");
    assert_eq!(shorten_path("/home/ann", "/home/ann"), "~");
    assert_eq!(shorten_path("/srv/code", "/home/ann"), "/srv/code");
    assert_eq!(shorten_path("/home/ann/code", ""), "/home/ann/code");
    assert_eq!(shorten_path("", "/home/ann"), "");
}

#[test]
fn std_path_rules_show_through() {
    assert_eq!(git_entry_label("/a/b.txt"), "b.txt");
    assert_eq!(git_entry_label("/"), "/");
    assert_eq!(unique_path_candidate("/a/b.txt", 2), "/a/b-2.txt");
    assert_eq!(unique_path_candidate("/a/.env", 1), "/a/.env-1");
    assert_eq!(duplicate_target("/a/b.tar.gz"), "/a/b.tar copy.gz");
}
