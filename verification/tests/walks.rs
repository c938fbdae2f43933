use cactus::discover::{marker, Discovery, DiscoveryRequest};
use cactus::entry::{Entry, EntryKind};
use cactus::oracle::IgnoreOracle;
use cactus::path::RelPath;
use cactus::scan::{Purge, ScanRequest, Scanner};
use cactus::size::SizeAccountant;
use std::io::Write;

/// A file tree held in memory, standing in for a disk.
enum Node {
    Dir { name: String, readable: bool, children: Vec<Node> },
    File { name: String, len: u64 },
    Link { name: String },
}

fn dir(name: &str, children: Vec<Node>) -> Node {
    Node::Dir { name: name.to_string(), readable: true, children }
}

fn locked(name: &str, children: Vec<Node>) -> Node {
    Node::Dir { name: name.to_string(), readable: false, children }
}

fn file(name: &str, content: &str) -> Node {
    Node::File { name: name.to_string(), len: content.len() as u64 }
}

fn sized(name: &str, len: u64) -> Node {
    Node::File { name: name.to_string(), len }
}

fn link(name: &str) -> Node {
    Node::Link { name: name.to_string() }
}

fn name_of(node: &Node) -> &str {
    match node {
        Node::Dir { name, .. } | Node::File { name, .. } | Node::Link { name } => name,
    }
}

fn rel(parts: &[&str]) -> RelPath {
    RelPath { parts: parts.iter().map(|p| p.to_string()).collect() }
}

fn shown(paths: &[RelPath]) -> Vec<String> {
    paths.iter().map(|p| p.display()).collect()
}

fn found_at(purges: &[Purge]) -> Vec<String> {
    purges.iter().map(|p| p.path.display()).collect()
}

/// The directory at `path` below a directory that holds `children`.
fn directory_at<'a>(children: &'a [Node], path: &[String]) -> Option<(&'a [Node], bool)> {
    let mut here: &[Node] = children;
    let mut readable = true;
    for part in path {
        let next = here.iter().find(|n| name_of(n) == part)?;
        match next {
            Node::Dir { readable: r, children, .. } => {
                here = children;
                readable = *r;
            }
            _ => return None,
        }
    }
    Some((here, readable))
}

/// What listing the directory at `path` gives.
fn list(root: &[Node], path: &RelPath) -> Option<Vec<Entry>> {
    let (children, readable) = directory_at(root, &path.parts)?;
    if !readable {
        return None;
    }
    Some(
        children
            .iter()
            .map(|n| match n {
                Node::Dir { name, .. } => Entry::directory(name),
                Node::File { name, len } => Entry::file(name, *len),
                Node::Link { name } => Entry::symlink(name),
            })
            .collect(),
    )
}

/// Measures the directory at `start` the way a caller of the library does.
fn measure(root: &[Node], start: &RelPath) -> u64 {
    let mut account = SizeAccountant::new(start.clone());
    loop {
        let Some(dir) = account.request() else { break };
        let entries = list(root, dir);
        assert!(account.listed(entries));
    }
    account.total()
}

/// Scans the tree the way a caller of the library does, with `judge`
/// standing in for the ignore rules.
fn scan_with(root: &[Node], mut judge: impl FnMut(&mut Scanner)) -> Vec<Purge> {
    let mut scanner = Scanner::new();
    loop {
        match scanner.request() {
            ScanRequest::List { dir } => {
                let entries = list(root, dir);
                scanner.listed(entries);
            }
            ScanRequest::Judge { .. } => judge(&mut scanner),
            ScanRequest::Measure { path } => {
                let size = measure(root, path);
                scanner.measured(size);
            }
            ScanRequest::Finished => break,
        }
    }
    scanner.into_found()
}

/// Scans the tree with rules that exclude exactly the given queries.
fn scan_ignoring(root: &[Node], ignored: &[&str]) -> Vec<Purge> {
    scan_with(root, |scanner| {
        let verdict = match scanner.request() {
            ScanRequest::Judge { path } => ignored.contains(&path.ignore_query().as_str()),
            _ => unreachable!(),
        };
        scanner.judged(verdict);
    })
}

/// Looks for repositories in the tree the way a caller of the library
/// does.
fn discover(root: &[Node], max_depth: usize) -> Vec<RelPath> {
    let mut discovery = Discovery::new(max_depth);
    loop {
        match discovery.request() {
            DiscoveryRequest::Probe { dir, .. } => {
                let has_marker = match directory_at(root, &dir.parts) {
                    Some((children, _)) => children.iter().any(|n| name_of(n) == marker()),
                    None => false,
                };
                discovery.probed(has_marker);
            }
            DiscoveryRequest::List { dir, .. } => {
                let entries = list(root, dir);
                discovery.listed(entries);
            }
            DiscoveryRequest::Finished => break,
        }
    }
    discovery.into_repos()
}

/// A repository on disk with the given ignore file, and its rules.
fn init_repo(name: &str, gitignore: &str) -> (tempfile::TempDir, IgnoreOracle) {
    let tmp = tempfile::tempdir().unwrap();
    let repo = tmp.path().join(name);
    git2::Repository::init(&repo).unwrap();
    if !gitignore.is_empty() {
        let mut file = tempfile::Builder::new()
            .prefix(".gitignore")
            .rand_bytes(0)
            .tempfile_in(&repo)
            .unwrap();
        file.write_all(gitignore.as_bytes()).unwrap();
        file.flush().unwrap();
        file.keep().unwrap();
    }
    let oracle = IgnoreOracle::open(repo.to_str().unwrap()).unwrap();
    (tmp, oracle)
}

/// Scans the tree with the rules of a repository on disk.
fn find_purgeable(root: &[Node], oracle: &IgnoreOracle) -> Vec<Purge> {
    scan_with(root, |scanner| oracle.judge(scanner))
}

#[test]
fn purges_gitignored_build_dir() {
    let (_tmp, oracle) = init_repo("proj", "build/\n");
    let repo = vec![
        dir(".git", vec![file("HEAD", "ref: refs/heads/main\n")]),
        file(".gitignore", "build/\n"),
        dir("build", vec![file("out.jar", "fake")]),
    ];

    let purges = find_purgeable(&repo, &oracle);
    assert_eq!(purges.len(), 1);
    assert_eq!(purges[0].path.file_name(), Some("build"));
    assert_eq!(purges[0].path.display(), "build");
    assert_eq!(purges[0].size, 4);
}

#[test]
fn skips_tracked_build_dir() {
    let (_tmp, oracle) = init_repo("proj", "");
    let repo = vec![dir(".git", vec![]), dir("build", vec![file("out.jar", "fake")])];

    let purges = find_purgeable(&repo, &oracle);
    assert!(purges.is_empty());
}

#[test]
fn finds_nested_node_modules() {
    let (_tmp, oracle) = init_repo("mono", "node_modules/\n");
    let repo = vec![
        dir(".git", vec![]),
        file(".gitignore", "node_modules/\n"),
        dir(
            "packages",
            vec![dir(
                "web",
                vec![dir("node_modules", vec![file("fake.js", "module.exports = {}")])],
            )],
        ),
    ];

    let purges = find_purgeable(&repo, &oracle);
    assert_eq!(purges.len(), 1);
    assert_eq!(purges[0].path.file_name(), Some("node_modules"));
    assert_eq!(purges[0].path.display(), "packages/web/node_modules");
    assert_eq!(purges[0].size, 19);
}

#[test]
fn finds_multiple_targets_in_one_repo() {
    let (_tmp, oracle) = init_repo("full", "build/\nnode_modules/\ntarget/\n");
    let repo = vec![
        dir(".git", vec![]),
        file(".gitignore", "build/\nnode_modules/\ntarget/\n"),
        dir("build", vec![]),
        dir("node_modules", vec![]),
        dir("target", vec![]),
    ];

    let purges = find_purgeable(&repo, &oracle);
    assert_eq!(purges.len(), 3);
    assert_eq!(found_at(&purges), ["build", "node_modules", "target"]);
}

#[test]
fn dir_size_computes_correctly() {
    let tmp = vec![dir(
        "test",
        vec![file("a.txt", "hello"), dir("sub", vec![file("b.txt", "world!")])],
    )];

    assert_eq!(measure(&tmp, &rel(&["test"])), 11);
}

#[test]
fn rules_for_one_name_leave_the_other_targets_alone() {
    let (_tmp, oracle) = init_repo("proj", "target/\n");
    let repo = vec![
        dir("build", vec![file("a", "aaaa")]),
        dir("target", vec![file("b", "bb")]),
        dir("src", vec![dir("target", vec![file("c", "c")])]),
    ];

    let purges = find_purgeable(&repo, &oracle);
    assert_eq!(found_at(&purges), ["target", "src/target"]);
    assert_eq!(purges[0].size, 2);
    assert_eq!(purges[1].size, 1);
}

#[test]
fn rules_anchored_at_the_root_do_not_reach_deeper_directories() {
    let (_tmp, oracle) = init_repo("proj", "/build/\n");
    let repo = vec![dir("build", vec![]), dir("app", vec![dir("build", vec![])])];

    let purges = find_purgeable(&repo, &oracle);
    assert_eq!(found_at(&purges), ["build"]);
}

#[test]
fn a_directory_that_is_no_repository_has_no_rules() {
    let tmp = tempfile::tempdir().unwrap();
    assert!(IgnoreOracle::open(tmp.path().to_str().unwrap()).is_none());
    assert!(IgnoreOracle::open(tmp.path().join("missing").to_str().unwrap()).is_none());
}

#[test]
fn a_question_that_cannot_be_asked_counts_as_not_ignored() {
    let (_tmp, oracle) = init_repo("proj", "*\n");
    assert!(oracle.is_ignored(&rel(&["build"])));
    assert!(!oracle.is_ignored(&rel(&["bu\0ild"])));
}

#[test]
fn scan_keeps_only_what_the_rules_exclude() {
    let repo = vec![
        dir("build", vec![sized("a", 10)]),
        dir("target", vec![sized("b", 20)]),
        dir("node_modules", vec![sized("c", 30)]),
    ];
    let purges = scan_ignoring(&repo, &["build/", "node_modules/"]);
    assert_eq!(found_at(&purges), ["build", "node_modules"]);
    assert_eq!(purges[0].size, 10);
    assert_eq!(purges[1].size, 30);
}

#[test]
fn scan_asks_about_the_path_below_the_repository_with_a_separator() {
    let repo = vec![dir("a", vec![dir("b", vec![dir("target", vec![])])])];
    let mut asked = Vec::new();
    let purges = scan_with(&repo, |scanner| {
        let query = match scanner.request() {
            ScanRequest::Judge { path } => path.ignore_query(),
            _ => unreachable!(),
        };
        asked.push(query);
        scanner.judged(false);
    });
    assert!(purges.is_empty());
    assert_eq!(asked, ["a/b/target/"]);
}

#[test]
fn scan_finds_targets_at_any_depth() {
    let mut tree = dir("obj", vec![sized("x", 7)]);
    let mut expected = vec!["obj".to_string()];
    for level in 0..40 {
        let name = format!("level{level}");
        tree = dir(&name, vec![tree]);
        expected.insert(0, name);
    }
    let purges = scan_with(&[tree], |scanner| scanner.judged(true));
    assert_eq!(purges.len(), 1);
    assert_eq!(purges[0].path.parts, expected);
    assert_eq!(purges[0].size, 7);
}

#[test]
fn scan_does_not_enter_a_matched_directory() {
    let repo = vec![dir(
        "node_modules",
        vec![dir("pkg", vec![dir("node_modules", vec![]), dir("build", vec![])])],
    )];
    let ignored = scan_with(&repo, |scanner| scanner.judged(true));
    assert_eq!(found_at(&ignored), ["node_modules"]);
    let unignored = scan_with(&repo, |scanner| scanner.judged(false));
    assert!(unignored.is_empty());
}

#[test]
fn scan_does_not_enter_hidden_directories() {
    let repo = vec![
        dir(".git", vec![dir("build", vec![])]),
        dir(".cache", vec![dir("target", vec![])]),
        dir("visible", vec![dir("target", vec![])]),
    ];
    let purges = scan_with(&repo, |scanner| scanner.judged(true));
    assert_eq!(found_at(&purges), ["visible/target"]);
}

#[test]
fn scan_classifies_hidden_targets() {
    let repo = vec![
        dir(".gradle", vec![sized("cache", 1)]),
        dir(".tox", vec![]),
        dir(".mypy_cache", vec![]),
        dir(".pytest_cache", vec![]),
        dir(".ruff_cache", vec![]),
        dir("__pycache__", vec![]),
        dir("bin", vec![]),
        dir("obj", vec![]),
    ];
    let purges = scan_with(&repo, |scanner| scanner.judged(true));
    assert_eq!(
        found_at(&purges),
        [".gradle", ".tox", ".mypy_cache", ".pytest_cache", ".ruff_cache", "__pycache__", "bin", "obj"]
    );
}

#[test]
fn scan_passes_over_links_and_files_named_like_targets() {
    let repo = vec![link("build"), file("target", "not a directory"), dir("src", vec![link("bin")])];
    let purges = scan_with(&repo, |scanner| scanner.judged(true));
    assert!(purges.is_empty());
}

#[test]
fn scan_goes_on_beside_a_directory_that_cannot_be_read() {
    let repo = vec![
        locked("secret", vec![dir("build", vec![])]),
        dir("open", vec![dir("build", vec![])]),
    ];
    let purges = scan_with(&repo, |scanner| scanner.judged(true));
    assert_eq!(found_at(&purges), ["open/build"]);
}

#[test]
fn scan_of_a_repository_that_cannot_be_read_finds_nothing() {
    let mut scanner = Scanner::new();
    scanner.listed(None);
    assert!(scanner.is_finished());
    assert!(scanner.found().is_empty());
}

#[test]
fn scan_reports_candidates_in_the_order_of_the_walk() {
    let repo = vec![
        dir("z", vec![dir("build", vec![]), dir("y", vec![dir("bin", vec![])])]),
        dir("target", vec![]),
        dir("a", vec![dir("obj", vec![])]),
    ];
    let purges = scan_with(&repo, |scanner| scanner.judged(true));
    assert_eq!(found_at(&purges), ["z/build", "z/y/bin", "target", "a/obj"]);
}

#[test]
fn scan_twice_finds_the_same() {
    let repo = vec![
        dir("web", vec![dir("node_modules", vec![sized("m", 3)]), dir("src", vec![])]),
        dir("target", vec![sized("t", 5)]),
    ];
    let first = scan_ignoring(&repo, &["web/node_modules/", "target/"]);
    let second = scan_ignoring(&repo, &["web/node_modules/", "target/"]);
    assert_eq!(found_at(&first), found_at(&second));
    assert_eq!(
        first.iter().map(|p| p.size).collect::<Vec<_>>(),
        second.iter().map(|p| p.size).collect::<Vec<_>>()
    );
}

#[test]
fn scanner_ignores_answers_it_did_not_ask_for() {
    let mut scanner = Scanner::new();
    scanner.judged(true);
    scanner.measured(99);
    assert!(matches!(scanner.request(), ScanRequest::List { dir } if dir.parts.is_empty()));
    scanner.listed(Some(vec![Entry::directory("build")]));
    assert!(matches!(scanner.request(), ScanRequest::Judge { path } if path.display() == "build"));
    scanner.measured(99);
    scanner.listed(Some(vec![Entry::directory("target")]));
    assert!(matches!(scanner.request(), ScanRequest::Judge { path } if path.display() == "build"));
    scanner.judged(true);
    assert!(matches!(scanner.request(), ScanRequest::Measure { path } if path.display() == "build"));
    scanner.judged(false);
    scanner.measured(12);
    assert!(scanner.is_finished());
    assert_eq!(found_at(scanner.found()), ["build"]);
    assert_eq!(scanner.found()[0].size, 12);
    scanner.measured(1);
    scanner.judged(true);
    scanner.listed(None);
    assert!(scanner.is_finished());
    assert_eq!(scanner.found().len(), 1);
}

#[test]
fn size_counts_regular_files_at_every_depth() {
    let tree = vec![dir(
        "d",
        vec![
            sized("a", 1),
            dir("x", vec![sized("b", 10), dir("y", vec![sized("c", 100), dir("z", vec![sized("d", 1000)])])]),
            dir("empty", vec![]),
            sized("e", 10000),
        ],
    )];
    assert_eq!(measure(&tree, &rel(&["d"])), 11111);
    assert_eq!(measure(&tree, &rel(&["d", "x"])), 1110);
    assert_eq!(measure(&tree, &rel(&["d", "empty"])), 0);
}

#[test]
fn size_leaves_links_aside() {
    let mut link_with_length = Entry::symlink("big");
    link_with_length.len = 1 << 40;
    let mut account = SizeAccountant::new(rel(&["d"]));
    assert!(account.listed(Some(vec![Entry::file("a", 5), link_with_length, Entry::symlink("dir")])));
    assert!(account.is_finished());
    assert_eq!(account.total(), 5);
}

#[test]
fn size_counts_nothing_for_what_cannot_be_read() {
    let tree = vec![dir(
        "d",
        vec![sized("a", 5), locked("secret", vec![sized("hidden", 1000)]), dir("open", vec![sized("b", 6)])],
    )];
    assert_eq!(measure(&tree, &rel(&["d"])), 11);
    assert_eq!(measure(&tree, &rel(&["missing"])), 0);
}

#[test]
fn size_reads_the_last_directory_of_a_listing_first() {
    let mut account = SizeAccountant::new(rel(&["d"]));
    assert_eq!(account.request().map(|p| p.display()), Some("d".to_string()));
    assert!(account.listed(Some(vec![
        Entry::directory("one"),
        Entry::file("f", 3),
        Entry::directory("two"),
    ])));
    assert_eq!(account.total(), 3);
    assert_eq!(account.request().map(|p| p.display()), Some("d/two".to_string()));
    assert!(account.listed(Some(vec![Entry::directory("deep")])));
    assert_eq!(account.request().map(|p| p.display()), Some("d/two/deep".to_string()));
    assert!(account.listed(None));
    assert_eq!(account.request().map(|p| p.display()), Some("d/one".to_string()));
    assert!(account.listed(Some(vec![])));
    assert!(account.request().is_none());
    assert!(account.is_finished());
    assert!(account.listed(Some(vec![Entry::file("late", 9)])));
    assert_eq!(account.total(), 3);
}

#[test]
fn size_that_does_not_fit_changes_nothing() {
    let mut account = SizeAccountant::new(rel(&["d"]));
    assert!(account.listed(Some(vec![Entry::file("a", u64::MAX - 1), Entry::directory("sub")])));
    assert_eq!(account.total(), u64::MAX - 1);
    assert!(!account.listed(Some(vec![Entry::file("b", 1), Entry::directory("x"), Entry::file("c", 1)])));
    assert_eq!(account.total(), u64::MAX - 1);
    assert_eq!(account.request().map(|p| p.display()), Some("d/sub".to_string()));
    assert!(account.listed(Some(vec![Entry::file("b", 1)])));
    assert_eq!(account.total(), u64::MAX);
    assert!(account.is_finished());
}

#[test]
fn discovery_finds_the_base_itself() {
    let tree = vec![dir(".git", vec![]), dir("sub", vec![dir(".git", vec![])])];
    assert_eq!(shown(&discover(&tree, 3)), [""]);
    assert_eq!(shown(&discover(&tree, 0)), [""]);
}

#[test]
fn discovery_does_not_look_below_a_repository() {
    let tree = vec![
        dir("outer", vec![dir(".git", vec![]), dir("vendor", vec![dir("inner", vec![dir(".git", vec![])])])]),
        dir("other", vec![dir(".git", vec![])]),
    ];
    assert_eq!(shown(&discover(&tree, 5)), ["other", "outer"]);
}

#[test]
fn discovery_stops_at_the_depth_given() {
    let tree = vec![
        dir("one", vec![dir(".git", vec![])]),
        dir("a", vec![
            dir("two", vec![dir(".git", vec![])]),
            dir("b", vec![dir("three", vec![dir(".git", vec![])]), dir("c", vec![dir("four", vec![dir(".git", vec![])])])]),
        ]),
    ];
    assert_eq!(shown(&discover(&tree, 0)), Vec::<String>::new());
    assert_eq!(shown(&discover(&tree, 1)), ["one"]);
    assert_eq!(shown(&discover(&tree, 2)), ["a/two", "one"]);
    assert_eq!(shown(&discover(&tree, 3)), ["a/b/three", "a/two", "one"]);
    assert_eq!(shown(&discover(&tree, 4)), ["a/b/c/four", "a/b/three", "a/two", "one"]);
    assert_eq!(shown(&discover(&tree, usize::MAX)), ["a/b/c/four", "a/b/three", "a/two", "one"]);
}

#[test]
fn discovery_reports_in_the_order_of_paths() {
    let tree = vec![
        dir("b", vec![dir(".git", vec![])]),
        dir("a-b", vec![dir(".git", vec![])]),
        dir("a", vec![dir("b", vec![dir(".git", vec![])]), dir("B", vec![dir(".git", vec![])])]),
        dir("Z", vec![dir(".git", vec![])]),
        dir("a.b", vec![dir(".git", vec![])]),
    ];
    let found = discover(&tree, 3);
    assert_eq!(shown(&found), ["Z", "a/B", "a/b", "a-b", "a.b", "b"]);
    let mut by_std: Vec<std::path::PathBuf> =
        found.iter().map(|p| p.parts.iter().collect()).collect();
    by_std.reverse();
    by_std.sort();
    assert_eq!(by_std, found.iter().map(|p| p.parts.iter().collect()).collect::<Vec<std::path::PathBuf>>());
}

#[test]
fn discovery_looks_into_hidden_and_artefact_directories() {
    let tree = vec![
        dir(".config", vec![dir("nvim", vec![dir(".git", vec![])])]),
        dir("node_modules", vec![dir("dep", vec![dir(".git", vec![])])]),
    ];
    assert_eq!(shown(&discover(&tree, 3)), [".config/nvim", "node_modules/dep"]);
}

#[test]
fn discovery_leaves_links_and_unreadable_directories_aside() {
    let tree = vec![
        link("linked"),
        locked("secret", vec![dir("repo", vec![dir(".git", vec![])])]),
        file("notes", "text"),
        dir("real", vec![dir(".git", vec![])]),
    ];
    assert_eq!(shown(&discover(&tree, 3)), ["real"]);
}

#[test]
fn discovery_counts_a_marker_of_any_kind() {
    let tree = vec![dir("worktree", vec![file(".git", "gitdir: elsewhere")])];
    assert_eq!(shown(&discover(&tree, 3)), ["worktree"]);
}

#[test]
fn discovery_ignores_answers_it_did_not_ask_for() {
    let mut discovery = Discovery::new(1);
    discovery.listed(Some(vec![Entry::directory("x")]));
    assert!(matches!(discovery.request(), DiscoveryRequest::Probe { dir, depth: 0 } if dir.parts.is_empty()));
    discovery.probed(false);
    assert!(matches!(discovery.request(), DiscoveryRequest::List { depth: 0, .. }));
    discovery.probed(true);
    assert!(matches!(discovery.request(), DiscoveryRequest::List { depth: 0, .. }));
    discovery.listed(Some(vec![Entry::directory("x"), Entry { name: "y".to_string(), kind: EntryKind::Other, len: 0 }]));
    assert!(matches!(discovery.request(), DiscoveryRequest::Probe { dir, depth: 1 } if dir.display() == "x"));
    discovery.probed(false);
    assert!(discovery.is_finished());
    discovery.probed(true);
    assert!(discovery.into_repos().is_empty());
}

#[test]
fn discovery_twice_reports_the_same() {
    let tree = vec![
        dir("b", vec![dir(".git", vec![])]),
        dir("a", vec![dir("c", vec![dir(".git", vec![])])]),
    ];
    assert_eq!(shown(&discover(&tree, 3)), shown(&discover(&tree, 3)));
}

#[test]
fn a_path_with_a_nul_inside_opens_nothing() {
    let tmp = tempfile::tempdir().unwrap();
    let repo = tmp.path().join("proj");
    git2::Repository::init(&repo).unwrap();
    let root = repo.to_str().unwrap();
    assert!(IgnoreOracle::open(root).is_some());
    assert!(IgnoreOracle::open(&format!("{root}\0")).is_none());
    assert!(IgnoreOracle::open(&format!("{root}\0/elsewhere")).is_none());
}

#[test]
fn rules_can_be_taken_from_a_repository_already_opened() {
    let tmp = tempfile::tempdir().unwrap();
    let repo = git2::Repository::init(tmp.path().join("proj")).unwrap();
    repo.add_ignore_rule("target/\n").unwrap();
    let oracle = IgnoreOracle::from_opened(Ok(repo)).unwrap();
    assert!(oracle.is_ignored(&rel(&["target"])));
    assert!(!oracle.is_ignored(&rel(&["build"])));
    assert!(!oracle.is_ignored(&rel(&["tar\0get"])));
    assert!(IgnoreOracle::from_opened(Err(git2::Error::from_str("not a repository"))).is_none());
}
