use fs_guard::path_guard::{
    AllowedPaths, CanonRoot, PathError, Resolution, ValidatedPath,
};
use fs_guard::strutil::{join_rel_exec, lines_of, parent_of, split_path_exec};

fn root(text: &str) -> CanonRoot {
    CanonRoot {
        text: text.to_string(),
        parts: split_path_exec(text),
    }
}

fn guard(roots: &[&str]) -> AllowedPaths {
    AllowedPaths {
        roots: roots.iter().map(|r| root(r)).collect(),
    }
}

#[test]
fn resolved_inside_root_is_accepted() {
    let g = guard(&["/sandbox"]);
    let verdict = g.resolve_outcome(
        &"/sandbox/notes/todo.txt".to_string(),
        Resolution::Resolved("/sandbox/notes/todo.txt".to_string()),
        None,
    );
    assert_eq!(
        verdict,
        Ok(ValidatedPath::Existing("/sandbox/notes/todo.txt".to_string()))
    );
}

#[test]
fn resolved_outside_every_root_is_rejected() {
    let g = guard(&["/sandbox", "/data"]);
    // The canonical form is what counts: a path that escaped through `..`
    // segments or a symlink resolves to its real location.
    let verdict = g.resolve_outcome(
        &"/sandbox/../etc/passwd".to_string(),
        Resolution::Resolved("/etc/passwd".to_string()),
        None,
    );
    assert_eq!(verdict, Err(PathError::OutsideAllowedPaths));
}

#[test]
fn missing_path_with_allowed_parent_is_pending() {
    let g = guard(&["/sandbox"]);
    let original = "/sandbox/newfile.txt".to_string();
    let verdict = g.resolve_outcome(
        &original,
        Resolution::Missing,
        Some(Resolution::Resolved("/sandbox".to_string())),
    );
    assert_eq!(verdict, Ok(ValidatedPath::Pending(original)));
}

#[test]
fn missing_path_with_outside_parent_is_rejected() {
    let g = guard(&["/sandbox"]);
    let verdict = g.resolve_outcome(
        &"/tmp/newfile.txt".to_string(),
        Resolution::Missing,
        Some(Resolution::Resolved("/tmp".to_string())),
    );
    assert_eq!(verdict, Err(PathError::OutsideAllowedPaths));
}

#[test]
fn missing_path_without_parent_is_not_found() {
    let g = guard(&["/sandbox"]);
    let none = g.resolve_outcome(&"nowhere.txt".to_string(), Resolution::Missing, None);
    assert_eq!(none, Err(PathError::NotFound));
    let missing_parent = g.resolve_outcome(
        &"/sandbox/a/b.txt".to_string(),
        Resolution::Missing,
        Some(Resolution::Missing),
    );
    assert_eq!(missing_parent, Err(PathError::NotFound));
}

#[test]
fn io_failures_surface_as_io_error() {
    let g = guard(&["/sandbox"]);
    assert_eq!(
        g.resolve_outcome(&"/sandbox/x".to_string(), Resolution::Failed, None),
        Err(PathError::IoError)
    );
    assert_eq!(
        g.resolve_outcome(
            &"/sandbox/x/y".to_string(),
            Resolution::Missing,
            Some(Resolution::Failed)
        ),
        Err(PathError::IoError)
    );
}

#[test]
fn guard_over_the_filesystem_root() {
    // The filesystem root always exists and canonicalizes to itself, so a
    // guard over it can be exercised end to end without creating files.
    let g = AllowedPaths::new(vec!["/".to_string()]).unwrap();
    assert_eq!(g.all_paths(), vec!["/".to_string()]);
    assert!(matches!(
        g.validate_path(&"/".to_string()),
        Ok(ValidatedPath::Existing(_))
    ));
    let verdict = g.validate_path(&"/surely-absent-fs-guard-test/child.txt".to_string());
    assert_eq!(verdict, Err(PathError::NotFound));
}

#[test]
fn empty_root_list_is_refused() {
    assert!(matches!(AllowedPaths::new(vec![]), Err(PathError::IoError)));
}

#[test]
fn is_path_allowed_checks_component_prefixes() {
    let g = guard(&["/data"]);
    assert!(g.is_path_allowed(&split_path_exec("/data/sub/file")));
    assert!(g.is_path_allowed(&split_path_exec("/data")));
    // "/database" shares a string prefix but not a component prefix.
    assert!(!g.is_path_allowed(&split_path_exec("/database/file")));
    assert!(!g.is_path_allowed(&split_path_exec("/else")));
}

#[test]
fn test_closest_relative_path() {
    // The nearest root wins: with both "/t2" and "/t2/nested" permitted,
    // a file inside the nested root is displayed relative to it.
    let g = guard(&["/t1", "/t2", "/t2/nested"]);
    let relative = g.closest_relative_path(&"/t2/nested/file.txt".to_string());
    assert_eq!(relative, "file.txt");
}

#[test]
fn closest_relative_path_without_ancestor_is_unchanged() {
    let g = guard(&["/data"]);
    let p = "/somewhere/else.txt".to_string();
    assert_eq!(g.closest_relative_path(&p), "/somewhere/else.txt");
}

#[test]
fn closest_relative_path_prefers_first_on_ties() {
    let g = guard(&["/data", "/data"]);
    assert_eq!(
        g.closest_relative_path(&"/data/a/b.txt".to_string()),
        "a/b.txt"
    );
}

#[test]
fn all_paths_reports_roots_in_order() {
    let g = guard(&["/alpha", "/beta"]);
    assert_eq!(g.all_paths(), vec!["/alpha".to_string(), "/beta".to_string()]);
}

#[test]
fn split_path_drops_empty_components() {
    let parts = split_path_exec("/a//b/c/");
    assert_eq!(parts, vec!["a".to_string(), "b".to_string(), "c".to_string()]);
    assert!(split_path_exec("/").is_empty());
    assert!(split_path_exec("").is_empty());
}

#[test]
fn join_rel_round_trips_components() {
    let parts = vec!["a".to_string(), "b".to_string(), "c.txt".to_string()];
    assert_eq!(join_rel_exec(&parts), "a/b/c.txt");
    assert_eq!(join_rel_exec(&vec![]), "");
}

#[test]
fn parent_of_matches_directory_semantics() {
    assert_eq!(parent_of("/a/b/c.txt"), Some("/a/b".to_string()));
    assert_eq!(parent_of("/a/b/"), Some("/a".to_string()));
    assert_eq!(parent_of("/a"), Some("/".to_string()));
    assert_eq!(parent_of("/"), None);
    assert_eq!(parent_of("plain.txt"), None);
    assert_eq!(parent_of(""), None);
}

#[test]
fn lines_of_splits_like_text_lines() {
    let ls = lines_of("a\r\nb\nc");
    assert_eq!(ls, vec!["a".to_string(), "b".to_string(), "c".to_string()]);
    assert_eq!(lines_of("x\n"), vec!["x".to_string()]);
    assert_eq!(lines_of("\n\n"), vec!["".to_string(), "".to_string()]);
    assert!(lines_of("").is_empty());
}
