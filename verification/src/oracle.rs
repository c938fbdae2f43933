//! The ignore rules of a repository, asked through the repository's own
//! engine rather than read and matched here: a wrong "ignored" would cost
//! data, so nothing in this library imitates the rules.
//!
//! What the engine answers depends on the files of the repository at the
//! moment it is asked. Of its answers only one thing is claimed: it refuses
//! a text with a NUL inside, before it looks at any file. What is proved is
//! what is asked and what is made of each answer.

use vstd::prelude::*;
use crate::path::{query_text, RelPath};
use crate::scan::{ScanRequest, Scanner};

verus! {

#[verifier::external_type_specification]
#[verifier::external_body]
pub struct ExRepository(git2::Repository);

#[verifier::external_type_specification]
#[verifier::external_body]
pub struct ExGitError(git2::Error);

/// Whether a text holds a NUL, so that it cannot be handed to the engine.
pub open spec fn has_nul(text: Seq<char>) -> bool {
    text.contains('\0')
}

/// Calls `git2::Repository::open` on `root`, which opens the repository
/// found at that very path, plain or bare. Whether one is there is for the
/// file system to say. The contract claims only what the function does
/// before it turns to the file system: it makes a C string of the path, and
/// fails where the path holds a NUL.
#[verifier::external_body]
fn open_repository(root: &str) -> (opened: Result<git2::Repository, git2::Error>)
    ensures
        has_nul(root@) ==> opened is Err,
{
    git2::Repository::open(root)
}

/// Calls `git2::Repository::is_path_ignored` with `query` as the path,
/// which tests whether the repository's ignore rules apply to it. The
/// answer depends on the rules as they stand on disk. The contract claims
/// only what the function does before it turns to the rules: it makes a C
/// string of the path, and fails where the path holds a NUL.
#[verifier::external_body]
fn path_is_ignored(repo: &git2::Repository, query: &str) -> (answer: Result<bool, git2::Error>)
    ensures
        has_nul(query@) ==> answer is Err,
{
    repo.is_path_ignored(query)
}

/// What is made of an answer that may have failed: a path counts as
/// ignored only where the rules were evaluated and said so. A failure
/// leaves the path alone.
pub fn fail_safe<E>(answer: Result<bool, E>) -> (ignored: bool)
    ensures
        ignored == (answer == Ok::<bool, E>(true)),
{
    match answer {
        Ok(ignored) => ignored,
        Err(_) => false,
    }
}

/// The ignore rules of one repository.
pub struct IgnoreOracle {
    repo: git2::Repository,
}

impl IgnoreOracle {
    /// The repository whose rules these are.
    pub closed spec fn repository(&self) -> git2::Repository {
        self.repo
    }

    /// What is made of an attempt to open a repository: its rules where it
    /// was opened, nothing where it was not.
    pub fn from_opened(opened: Result<git2::Repository, git2::Error>) -> (oracle: Option<
        IgnoreOracle,
    >)
        ensures
            oracle is Some <==> opened is Ok,
            oracle matches Some(rules) ==> opened == Ok::<git2::Repository, git2::Error>(
                rules.repository(),
            ),
    {
        match opened {
            Ok(repo) => Some(IgnoreOracle { repo }),
            Err(_) => None,
        }
    }

    /// The rules of the repository at `root`; `None` where no repository
    /// can be opened there. Whether one can is for the engine and the file
    /// system to say, but for a path that cannot name a directory: one
    /// with a NUL inside opens nothing.
    pub fn open(root: &str) -> (oracle: Option<IgnoreOracle>)
        ensures
            has_nul(root@) ==> oracle is None,
    {
        Self::from_opened(open_repository(root))
    }

    /// Whether the rules exclude the directory at `path` below the
    /// repository. The rules are asked about the path with the separator
    /// after it, and a question that cannot be answered counts as "no":
    /// so does every question about a path with a NUL inside, which the
    /// engine refuses.
    pub fn is_ignored(&self, path: &RelPath) -> (ignored: bool)
        ensures
            has_nul(query_text(path@)) ==> !ignored,
    {
        let query = path.ignore_query();
        fail_safe(path_is_ignored(&self.repo, query.as_str()))
    }

    /// Answers the scanner's question about a directory with the verdict
    /// of the rules. A scanner that waits for something else is left as it
    /// is.
    pub fn judge(&self, scanner: &mut Scanner)
        ensures
            final(scanner)@ == old(scanner)@.judged(true) || final(scanner)@ == old(
                scanner,
            )@.judged(false),
    {
        let ignored = match scanner.request() {
            ScanRequest::Judge { path } => self.is_ignored(path),
            _ => false,
        };
        scanner.judged(ignored);
    }
}

} // verus!
