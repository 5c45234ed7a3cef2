use rslint_staged::staged::{changed_paths, dedup_paths, join_path, FileDelta, Repo};

fn strings(v: &[&str]) -> Vec<String> {
    v.iter().map(|s| s.to_string()).collect()
}

fn delta(old: Option<&str>, new: Option<&str>) -> FileDelta {
    FileDelta { old_path: old.map(|s| s.to_string()), new_path: new.map(|s| s.to_string()) }
}

#[test]
fn dedup_keeps_first_occurrences_in_order() {
    let paths = strings(&["b", "a", "b", "c", "a", "a"]);
    assert_eq!(dedup_paths(&paths), strings(&["b", "a", "c"]));
}

#[test]
fn dedup_removes_repeats_that_are_not_adjacent() {
    let paths = strings(&["x", "y", "x"]);
    assert_eq!(dedup_paths(&paths), strings(&["x", "y"]));
}

#[test]
fn dedup_twice_is_dedup_once() {
    let paths = strings(&["q", "p", "q", "r", "p"]);
    let once = dedup_paths(&paths);
    assert_eq!(dedup_paths(&once), once);
}

#[test]
fn dedup_of_empty_is_empty() {
    assert!(dedup_paths(&Vec::new()).is_empty());
}

#[test]
fn staged_files_joins_both_sides_once() {
    let repo = Repo { root: "/repo".to_string() };
    let deltas = vec![
        delta(Some("a.js"), Some("a.js")),
        delta(Some("old.ts"), Some("new.ts")),
        delta(None, Some("added.md")),
        delta(Some("gone.css"), None),
    ];
    assert_eq!(
        repo.staged_files(&deltas),
        strings(&["/repo/a.js", "/repo/old.ts", "/repo/new.ts", "/repo/added.md", "/repo/gone.css"])
    );
}

#[test]
fn staged_files_of_no_deltas_is_empty() {
    let repo = Repo { root: "/repo".to_string() };
    assert!(repo.staged_files(&Vec::new()).is_empty());
}

#[test]
fn staged_files_root_with_trailing_separator() {
    let repo = Repo { root: "/repo/".to_string() };
    let deltas = vec![delta(Some("src/x.rs"), Some("src/x.rs"))];
    assert_eq!(repo.staged_files(&deltas), strings(&["/repo/src/x.rs"]));
}

#[test]
fn join_path_adds_one_separator() {
    assert_eq!(join_path("/repo", "a/b.js"), "/repo/a/b.js");
    assert_eq!(join_path("/repo/", "a.js"), "/repo/a.js");
    assert_eq!(join_path("", "a.js"), "a.js");
    assert_eq!(join_path("/repo", "/abs/x"), "/abs/x");
}

#[test]
fn staged_paths_keep_both_forms() {
    let repo = Repo { root: "/repo".to_string() };
    let deltas = vec![delta(Some("a/x.rs"), Some("a/x.rs")), delta(None, Some("b.md"))];
    let staged = repo.staged_paths(&deltas);
    let pairs: Vec<(String, String)> = staged.into_iter().map(|p| (p.relative, p.absolute)).collect();
    assert_eq!(
        pairs,
        vec![
            ("a/x.rs".to_string(), "/repo/a/x.rs".to_string()),
            ("b.md".to_string(), "/repo/b.md".to_string()),
        ]
    );
}

#[test]
fn changed_paths_lists_both_sides() {
    let deltas = vec![delta(Some("o"), Some("n")), delta(None, Some("a")), delta(Some("d"), None)];
    assert_eq!(changed_paths(&deltas), strings(&["o", "n", "a", "d"]));
}

#[test]
fn staged_files_drop_repeats_that_are_not_adjacent() {
    let repo = Repo { root: "/repo".to_string() };
    let deltas = vec![delta(Some("a.js"), Some("b.js")), delta(Some("c.js"), Some("c.js")), delta(None, Some("a.js"))];
    assert_eq!(repo.staged_files(&deltas), strings(&["/repo/a.js", "/repo/b.js", "/repo/c.js"]));
}

#[test]
fn staged_files_compare_joined_paths() {
    let repo = Repo { root: "/r".to_string() };
    let deltas = vec![delta(Some("/r/a"), Some("a"))];
    assert_eq!(repo.staged_files(&deltas), strings(&["/r/a"]));
    let staged = repo.staged_paths(&deltas);
    assert_eq!(staged.len(), 1);
    assert_eq!(staged[0].relative, "/r/a");
}
