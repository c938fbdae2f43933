use cactus::execute::Executor;
use cactus::path::RelPath;
use cactus::report::{aggregate, totals, ScanResult, Totals};
use cactus::scan::Purge;
use cactus::session::{exit_code, Failure, Options, Session, Stage, Success, DEFAULT_DEPTH};

fn rel(parts: &[&str]) -> RelPath {
    RelPath { parts: parts.iter().map(|p| p.to_string()).collect() }
}

fn result(repo: &[&str], purges: &[(&[&str], u64)]) -> ScanResult {
    ScanResult {
        repo: rel(repo),
        purges: purges.iter().map(|(path, size)| Purge { path: rel(path), size: *size }).collect(),
    }
}

fn sample() -> Vec<ScanResult> {
    vec![
        result(&["app"], &[(&["build"], 100), (&["web", "node_modules"], 2000)]),
        result(&["empty"], &[]),
        result(&["lib"], &[(&["target"], 30000)]),
    ]
}

fn options(dry_run: bool, yes: bool) -> Options {
    Options { max_depth: DEFAULT_DEPTH, dry_run, yes }
}

/// A session that has come as far as showing what was found.
fn at_report(dry_run: bool, yes: bool) -> Session {
    let mut session = Session::new(options(dry_run, yes));
    session.resolved(true);
    session.discovered(2);
    session.scanned(3);
    assert_eq!(session.stage(), Stage::Report);
    session
}

#[test]
fn aggregate_drops_results_without_candidates() {
    let kept = aggregate(sample());
    assert_eq!(kept.len(), 2);
    assert_eq!(kept[0].repo.display(), "app");
    assert_eq!(kept[0].purges.len(), 2);
    assert_eq!(kept[1].repo.display(), "lib");
    assert_eq!(kept[1].purges[0].size, 30000);
}

#[test]
fn aggregate_of_nothing_but_empty_results_is_empty() {
    assert!(aggregate(vec![result(&["a"], &[]), result(&["b"], &[])]).is_empty());
    assert!(aggregate(Vec::new()).is_empty());
}

#[test]
fn totals_count_directories_and_bytes() {
    assert_eq!(totals(&sample()), Some(Totals { dirs: 3, bytes: 32100 }));
    assert_eq!(totals(&Vec::new()), Some(Totals { dirs: 0, bytes: 0 }));
}

#[test]
fn totals_that_do_not_fit_are_none() {
    let results = vec![
        result(&["a"], &[(&["build"], u64::MAX)]),
        result(&["b"], &[(&["build"], 1)]),
    ];
    assert_eq!(totals(&results), None);
    let fitting = vec![result(&["a"], &[(&["build"], u64::MAX - 1), (&["bin"], 1)])];
    assert_eq!(totals(&fitting), Some(Totals { dirs: 2, bytes: u64::MAX }));
}

#[test]
fn executor_names_every_candidate_in_order() {
    let mut executor = Executor::new(&sample()).unwrap();
    let mut named = Vec::new();
    while let Some(target) = executor.request() {
        named.push((target.repo.display(), target.path.display(), target.size));
        executor.removed(true);
    }
    assert_eq!(
        named,
        [
            ("app".to_string(), "build".to_string(), 100),
            ("app".to_string(), "web/node_modules".to_string(), 2000),
            ("lib".to_string(), "target".to_string(), 30000),
        ]
    );
    assert!(executor.is_finished());
    assert_eq!(executor.freed(), 32100);
    assert_eq!(executor.failures(), 0);
}

#[test]
fn executor_goes_on_after_a_failure() {
    let mut executor = Executor::new(&sample()).unwrap();
    executor.removed(true);
    executor.removed(false);
    assert!(!executor.is_finished());
    assert_eq!(executor.request().map(|t| t.path.display()), Some("target".to_string()));
    executor.removed(true);
    assert!(executor.is_finished());
    assert_eq!(executor.freed(), 30100);
    assert_eq!(executor.failures(), 1);
}

#[test]
fn executor_frees_nothing_where_every_removal_fails() {
    let mut executor = Executor::new(&sample()).unwrap();
    while executor.request().is_some() {
        executor.removed(false);
    }
    assert_eq!(executor.freed(), 0);
    assert_eq!(executor.failures(), 3);
}

#[test]
fn executor_with_nothing_to_do_is_finished_at_once() {
    let mut executor = Executor::new(&vec![result(&["a"], &[])]).unwrap();
    assert!(executor.is_finished());
    assert!(executor.request().is_none());
    executor.removed(true);
    executor.removed(false);
    assert_eq!(executor.freed(), 0);
    assert_eq!(executor.failures(), 0);
}

#[test]
fn executor_refuses_what_cannot_be_counted() {
    let results = vec![result(&["a"], &[(&["build"], u64::MAX), (&["bin"], 1)])];
    assert!(Executor::new(&results).is_none());
}

#[test]
fn session_fails_where_the_base_cannot_be_resolved() {
    let mut session = Session::new(options(false, false));
    assert_eq!(session.stage(), Stage::Resolve);
    session.resolved(false);
    assert_eq!(session.stage(), Stage::Failed(Failure::RootInaccessible));
    assert_eq!(exit_code(session.stage()), 1);
}

#[test]
fn session_fails_where_no_repository_is_found() {
    let mut session = Session::new(options(false, false));
    session.resolved(true);
    assert_eq!(session.stage(), Stage::Discover);
    session.discovered(0);
    assert_eq!(session.stage(), Stage::Failed(Failure::NoRepositories));
    assert_eq!(exit_code(session.stage()), 1);
}

#[test]
fn session_ends_well_where_nothing_is_to_purge() {
    let mut session = Session::new(options(false, false));
    session.resolved(true);
    session.discovered(4);
    assert_eq!(session.stage(), Stage::Scan);
    session.scanned(0);
    assert_eq!(session.stage(), Stage::Succeeded(Success::NothingToPurge));
    assert_eq!(exit_code(session.stage()), 0);
}

#[test]
fn session_on_a_dry_run_ends_after_the_report() {
    for yes in [false, true] {
        let mut session = at_report(true, yes);
        session.reported();
        assert_eq!(session.stage(), Stage::Succeeded(Success::DryRun));
        assert_eq!(exit_code(session.stage()), 0);
        session.answered(Some("y"));
        session.executed(10, 0);
        assert_eq!(session.stage(), Stage::Succeeded(Success::DryRun));
    }
}

#[test]
fn session_asks_before_it_deletes() {
    let mut session = at_report(false, false);
    session.reported();
    assert_eq!(session.stage(), Stage::Confirm);
    session.answered(Some("yes\n"));
    assert_eq!(session.stage(), Stage::Execute);
    session.executed(32100, 0);
    assert_eq!(session.stage(), Stage::Succeeded(Success::Purged { freed: 32100 }));
    assert_eq!(exit_code(session.stage()), 0);
}

#[test]
fn session_deletes_without_asking_where_told_so() {
    let mut session = at_report(false, true);
    session.reported();
    assert_eq!(session.stage(), Stage::Execute);
}

#[test]
fn session_ends_well_where_the_deletion_is_declined() {
    for answer in ["", "n\n", "no", "Yes", "maybe"] {
        let mut session = at_report(false, false);
        session.reported();
        session.answered(Some(answer));
        assert_eq!(session.stage(), Stage::Succeeded(Success::Declined), "{answer:?}");
        assert_eq!(exit_code(session.stage()), 0);
    }
}

#[test]
fn session_fails_where_the_answer_cannot_be_read() {
    let mut session = at_report(false, false);
    session.reported();
    session.answered(None);
    assert_eq!(session.stage(), Stage::Failed(Failure::InputUnreadable));
    assert_eq!(exit_code(session.stage()), 1);
}

#[test]
fn session_fails_where_a_deletion_failed() {
    let mut session = at_report(false, true);
    session.reported();
    session.executed(30100, 1);
    assert_eq!(session.stage(), Stage::Failed(Failure::DeletionsFailed { count: 1 }));
    assert_eq!(exit_code(session.stage()), 1);
}

#[test]
fn session_ignores_answers_that_are_not_due() {
    let mut session = Session::new(options(false, true));
    session.discovered(3);
    session.scanned(3);
    session.reported();
    session.answered(Some("y"));
    session.executed(1, 0);
    assert_eq!(session.stage(), Stage::Resolve);
    session.resolved(true);
    session.resolved(false);
    session.scanned(0);
    assert_eq!(session.stage(), Stage::Discover);
    assert_eq!(session.options(), options(false, true));
}

#[test]
fn the_default_depth_is_three() {
    assert_eq!(DEFAULT_DEPTH, 3);
}
