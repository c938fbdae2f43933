use cactus::entry::{Entry, EntryKind};
use cactus::order::{path_before_or_equal, sort_paths};
use cactus::path::RelPath;
use cactus::walk::{classify, is_hidden_name, is_target_name, targets, WalkStep};
use std::path::PathBuf;

fn rel(parts: &[&str]) -> RelPath {
    RelPath { parts: parts.iter().map(|p| p.to_string()).collect() }
}

fn as_std(path: &RelPath) -> PathBuf {
    let mut out = PathBuf::from("/base");
    for part in &path.parts {
        out.push(part);
    }
    out
}

#[test]
fn base_is_the_empty_path() {
    let base = RelPath::base();
    assert_eq!(base.depth(), 0);
    assert_eq!(base.file_name(), None);
    assert_eq!(base.display(), "");
    assert_eq!(base.ignore_query(), "/");
}

#[test]
fn child_adds_one_name() {
    let path = RelPath::base().child("packages").child("web").child("node_modules");
    assert_eq!(path.parts, ["packages", "web", "node_modules"]);
    assert_eq!(path.depth(), 3);
    assert_eq!(path.file_name(), Some("node_modules"));
}

#[test]
fn display_joins_names_with_the_separator() {
    assert_eq!(rel(&["build"]).display(), "build");
    assert_eq!(rel(&["packages", "web", "node_modules"]).display(), "packages/web/node_modules");
    assert_eq!(rel(&["a b", "c"]).display(), "a b/c");
}

#[test]
fn ignore_query_ends_with_the_separator() {
    assert_eq!(rel(&["build"]).ignore_query(), "build/");
    assert_eq!(rel(&["packages", "web", "node_modules"]).ignore_query(), "packages/web/node_modules/");
}

#[test]
fn clone_keeps_every_name() {
    let path = rel(&["a", "b", "c"]);
    assert_eq!(path.clone().parts, path.parts);
}

#[test]
fn the_targets_are_the_known_artefact_directories() {
    assert_eq!(
        targets(),
        [
            "build",
            ".gradle",
            "bin",
            "obj",
            "node_modules",
            "target",
            "__pycache__",
            ".mypy_cache",
            ".pytest_cache",
            ".ruff_cache",
            ".tox",
        ]
    );
    for name in targets() {
        assert!(is_target_name(name), "{name}");
    }
}

#[test]
fn names_near_targets_are_no_targets() {
    for name in ["", "Build", "builds", "buil", "targets", ".git", "node-modules", "src", "dist", ".", "bin "] {
        assert!(!is_target_name(name), "{name:?}");
    }
}

#[test]
fn hidden_names_begin_with_a_dot() {
    assert!(is_hidden_name(".git"));
    assert!(is_hidden_name("."));
    assert!(is_hidden_name(".gradle"));
    assert!(!is_hidden_name(""));
    assert!(!is_hidden_name("a.b"));
    assert!(!is_hidden_name("build"));
}

#[test]
fn classify_decides_by_kind_and_name() {
    assert_eq!(classify(&Entry::directory("build")), WalkStep::Classify);
    assert_eq!(classify(&Entry::directory(".gradle")), WalkStep::Classify);
    assert_eq!(classify(&Entry::directory(".git")), WalkStep::Skip);
    assert_eq!(classify(&Entry::directory(".hidden")), WalkStep::Skip);
    assert_eq!(classify(&Entry::directory("src")), WalkStep::Descend);
    assert_eq!(classify(&Entry::directory("")), WalkStep::Descend);
    assert_eq!(classify(&Entry::symlink("build")), WalkStep::Skip);
    assert_eq!(classify(&Entry::symlink("src")), WalkStep::Skip);
    assert_eq!(classify(&Entry::file("build", 10)), WalkStep::Skip);
    assert_eq!(
        classify(&Entry { name: "target".to_string(), kind: EntryKind::Other, len: 0 }),
        WalkStep::Skip
    );
}

#[test]
fn the_order_of_paths_is_that_of_the_standard_library() {
    let samples = [
        rel(&[]),
        rel(&["a"]),
        rel(&["a", "b"]),
        rel(&["a", "B"]),
        rel(&["a-b"]),
        rel(&["a.b"]),
        rel(&["ab"]),
        rel(&["a", "b", "c"]),
        rel(&["b"]),
        rel(&["Z"]),
        rel(&["\u{e9}"]),
        rel(&["e\u{301}"]),
        rel(&["z"]),
        rel(&["\u{10000}"]),
        rel(&["\u{ffff}"]),
        rel(&["a "]),
    ];
    for x in &samples {
        for y in &samples {
            assert_eq!(path_before_or_equal(x, y), as_std(x) <= as_std(y), "{:?} {:?}", x.parts, y.parts);
        }
    }
}

#[test]
fn sort_paths_orders_as_the_standard_library_does() {
    let paths = vec![
        rel(&["b"]),
        rel(&["a-b"]),
        rel(&["a", "b"]),
        rel(&[]),
        rel(&["a"]),
        rel(&["a", "B"]),
        rel(&["b"]),
        rel(&["Z", "z"]),
    ];
    let mut expected: Vec<PathBuf> = paths.iter().map(as_std).collect();
    expected.sort();
    let sorted = sort_paths(paths);
    assert_eq!(sorted.iter().map(as_std).collect::<Vec<_>>(), expected);
    assert_eq!(sorted.len(), 8);
}

#[test]
fn sort_paths_of_nothing_is_nothing() {
    assert!(sort_paths(Vec::new()).is_empty());
}
