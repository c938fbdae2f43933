//! The course of one run, from the base directory to the end: what is done
//! next, and how the run ends.
//!
//! The session does nothing itself. It names the stage that is due, its
//! caller does that work and says how it went, and the session decides
//! what follows. A run that is only to report never reaches a deletion.

use vstd::prelude::*;
use crate::text::{trim, trimmed};

verus! {

/// How deep below the base repositories are looked for, unless told
/// otherwise.
pub const DEFAULT_DEPTH: usize = 3;

/// What the caller asked for.
#[derive(Clone, Copy, PartialEq, Eq, Structural, Debug)]
pub struct Options {
    /// How deep below the base repositories are looked for.
    pub max_depth: usize,
    /// Report only: nothing is to be deleted.
    pub dry_run: bool,
    /// Delete without asking first.
    pub yes: bool,
}

/// Why a run ended without doing what it was asked.
#[derive(Clone, Copy, PartialEq, Eq, Structural, Debug)]
pub enum Failure {
    /// The base directory could not be resolved.
    RootInaccessible,
    /// No repository was found below the base.
    NoRepositories,
    /// The answer to the question whether to delete could not be read.
    InputUnreadable,
    /// Some directories could not be removed.
    DeletionsFailed { count: usize },
}

/// How a run ended well.
#[derive(Clone, Copy, PartialEq, Eq, Structural, Debug)]
pub enum Success {
    /// No repository held a candidate.
    NothingToPurge,
    /// The candidates were reported and, as asked, left alone.
    DryRun,
    /// The candidates were reported and the deletion was declined.
    Declined,
    /// Every candidate was removed.
    Purged { freed: u64 },
}

/// What is due in a run.
#[derive(Clone, Copy, PartialEq, Eq, Structural, Debug)]
pub enum Stage {
    /// Resolve the base directory; then [`Session::resolved`].
    Resolve,
    /// Find the repositories; then [`Session::discovered`].
    Discover,
    /// Scan the repositories; then [`Session::scanned`].
    Scan,
    /// Show what was found; then [`Session::reported`].
    Report,
    /// Ask whether to delete; then [`Session::answered`].
    Confirm,
    /// Delete the candidates; then [`Session::executed`].
    Execute,
    /// Nothing: the run ended well.
    Succeeded(Success),
    /// Nothing: the run failed.
    Failed(Failure),
}

/// Whether a trimmed answer agrees to the deletion.
pub open spec fn affirmative(answer: Seq<char>) -> bool {
    answer == seq!['y'] || answer == seq!['Y'] || answer == seq!['y', 'e', 's']
}

/// The state of a run as contracts speak of it.
pub struct SessionView {
    pub options: Options,
    pub stage: Stage,
}

impl SessionView {
    /// A run that has just begun.
    pub open spec fn start(options: Options) -> SessionView {
        SessionView { options, stage: Stage::Resolve }
    }

    /// The same run at another stage.
    pub open spec fn at(self, stage: Stage) -> SessionView {
        SessionView { options: self.options, stage }
    }

    /// After the base was resolved, or could not be. Like every answer, it
    /// changes nothing at a stage that did not ask for it.
    pub open spec fn resolved(self, accessible: bool) -> SessionView {
        if self.stage != Stage::Resolve {
            self
        } else if accessible {
            self.at(Stage::Discover)
        } else {
            self.at(Stage::Failed(Failure::RootInaccessible))
        }
    }

    /// After the repositories were looked for.
    pub open spec fn discovered(self, repos: usize) -> SessionView {
        if self.stage != Stage::Discover {
            self
        } else if repos == 0 {
            self.at(Stage::Failed(Failure::NoRepositories))
        } else {
            self.at(Stage::Scan)
        }
    }

    /// After the repositories were scanned.
    pub open spec fn scanned(self, candidates: usize) -> SessionView {
        if self.stage != Stage::Scan {
            self
        } else if candidates == 0 {
            self.at(Stage::Succeeded(Success::NothingToPurge))
        } else {
            self.at(Stage::Report)
        }
    }

    /// After the candidates were shown: a run that is only to report ends
    /// here; one that may delete without asking goes on to delete; any
    /// other asks first.
    pub open spec fn reported(self) -> SessionView {
        if self.stage != Stage::Report {
            self
        } else if self.options.dry_run {
            self.at(Stage::Succeeded(Success::DryRun))
        } else if self.options.yes {
            self.at(Stage::Execute)
        } else {
            self.at(Stage::Confirm)
        }
    }

    /// After the question was answered; `None` where no answer could be
    /// read. Only `y`, `Y` and `yes`, with any white space around them,
    /// agree.
    pub open spec fn answered(self, answer: Option<Seq<char>>) -> SessionView {
        if self.stage != Stage::Confirm {
            self
        } else {
            match answer {
                None => self.at(Stage::Failed(Failure::InputUnreadable)),
                Some(text) => if affirmative(trimmed(text)) {
                    self.at(Stage::Execute)
                } else {
                    self.at(Stage::Succeeded(Success::Declined))
                },
            }
        }
    }

    /// After the deletions were tried.
    pub open spec fn executed(self, freed: u64, failures: usize) -> SessionView {
        if self.stage != Stage::Execute {
            self
        } else if failures > 0 {
            self.at(Stage::Failed(Failure::DeletionsFailed { count: failures }))
        } else {
            self.at(Stage::Succeeded(Success::Purged { freed }))
        }
    }

    /// Whether the run has come as far as asking about or carrying out a
    /// deletion.
    pub open spec fn past_report(self) -> bool {
        match self.stage {
            Stage::Confirm | Stage::Execute => true,
            Stage::Succeeded(Success::Declined) | Stage::Succeeded(Success::Purged { .. }) => true,
            Stage::Failed(Failure::InputUnreadable) | Stage::Failed(
                Failure::DeletionsFailed { .. },
            ) => true,
            _ => false,
        }
    }

    /// What holds of a run at every moment: one that is only to report
    /// never comes to ask about a deletion, let alone to delete.
    pub open spec fn sound(self) -> bool {
        self.options.dry_run ==> !self.past_report()
    }
}

/// The status with which a process ends a run: zero where it ended well.
pub open spec fn exit_status(stage: Stage) -> i32 {
    match stage {
        Stage::Failed(_) => 1,
        _ => 0,
    }
}

/// The state of a run.
pub struct Session {
    options: Options,
    stage: Stage,
}

impl View for Session {
    type V = SessionView;

    closed spec fn view(&self) -> SessionView {
        SessionView { options: self.options, stage: self.stage }
    }
}

/// Whether an answer agrees to the deletion: `y`, `Y` or `yes`, with any
/// white space around it.
pub fn confirms(answer: &str) -> (yes: bool)
    ensures
        yes == affirmative(trimmed(answer@)),
{
    let inner = trim(answer);
    if inner.len() == 1 {
        let yes = inner[0] == 'y' || inner[0] == 'Y';
        assert(yes == affirmative(inner@)) by {
            assert(inner@ =~= seq![inner@[0]]);
        }
        yes
    } else if inner.len() == 3 {
        let yes = inner[0] == 'y' && inner[1] == 'e' && inner[2] == 's';
        assert(yes == affirmative(inner@)) by {
            assert(inner@ =~= seq![inner@[0], inner@[1], inner@[2]]);
        }
        yes
    } else {
        false
    }
}

/// The status with which a process ends a run that stands at `stage`.
pub fn exit_code(stage: Stage) -> (code: i32)
    ensures
        code == exit_status(stage),
{
    match stage {
        Stage::Failed(_) => 1,
        _ => 0,
    }
}

impl Session {
    /// A run with the given options, about to resolve its base.
    pub fn new(options: Options) -> (session: Session)
        ensures
            session@ == SessionView::start(options),
    {
        Session { options, stage: Stage::Resolve }
    }

    /// What the caller asked for.
    pub fn options(&self) -> (options: Options)
        ensures
            options == self@.options,
    {
        self.options
    }

    /// What is due.
    pub fn stage(&self) -> (stage: Stage)
        ensures
            stage == self@.stage,
    {
        self.stage
    }

    /// Says whether the base directory could be resolved.
    pub fn resolved(&mut self, accessible: bool)
        ensures
            final(self)@ == old(self)@.resolved(accessible),
    {
        if self.stage == Stage::Resolve {
            self.stage = if accessible {
                Stage::Discover
            } else {
                Stage::Failed(Failure::RootInaccessible)
            };
        }
    }

    /// Says how many repositories were found.
    pub fn discovered(&mut self, repos: usize)
        ensures
            final(self)@ == old(self)@.discovered(repos),
    {
        if self.stage == Stage::Discover {
            self.stage = if repos == 0 {
                Stage::Failed(Failure::NoRepositories)
            } else {
                Stage::Scan
            };
        }
    }

    /// Says how many candidates the scans found.
    pub fn scanned(&mut self, candidates: usize)
        ensures
            final(self)@ == old(self)@.scanned(candidates),
    {
        if self.stage == Stage::Scan {
            self.stage = if candidates == 0 {
                Stage::Succeeded(Success::NothingToPurge)
            } else {
                Stage::Report
            };
        }
    }

    /// Says that the candidates were shown.
    pub fn reported(&mut self)
        ensures
            final(self)@ == old(self)@.reported(),
    {
        if self.stage == Stage::Report {
            self.stage = if self.options.dry_run {
                Stage::Succeeded(Success::DryRun)
            } else if self.options.yes {
                Stage::Execute
            } else {
                Stage::Confirm
            };
        }
    }

    /// Hands over the answer to the question whether to delete; `None`
    /// where no answer could be read.
    pub fn answered(&mut self, answer: Option<&str>)
        ensures
            final(self)@ == old(self)@.answered(
                match answer {
                    Some(text) => Some(text@),
                    None => None,
                },
            ),
    {
        if self.stage == Stage::Confirm {
            self.stage = match answer {
                None => Stage::Failed(Failure::InputUnreadable),
                Some(text) => if confirms(text) {
                    Stage::Execute
                } else {
                    Stage::Succeeded(Success::Declined)
                },
            };
        }
    }

    /// Says what the deletions came to.
    pub fn executed(&mut self, freed: u64, failures: usize)
        ensures
            final(self)@ == old(self)@.executed(freed, failures),
    {
        if self.stage == Stage::Execute {
            self.stage = if failures > 0 {
                Stage::Failed(Failure::DeletionsFailed { count: failures })
            } else {
                Stage::Succeeded(Success::Purged { freed })
            };
        }
    }
}

/// A run that is only to report never deletes: no answer changes what was
/// asked for; a run is sound when it begins and every answer keeps it
/// sound; and a sound run that is only to report is never at the stage of
/// deleting, nor at that of asking.
pub proof fn lemma_dry_run_never_deletes(
    session: SessionView,
    options: Options,
    accessible: bool,
    count: usize,
    answer: Option<Seq<char>>,
    freed: u64,
)
    requires
        session.sound(),
    ensures
        SessionView::start(options).sound(),
        SessionView::start(options).options == options,
        session.resolved(accessible).sound(),
        session.resolved(accessible).options == session.options,
        session.discovered(count).sound(),
        session.discovered(count).options == session.options,
        session.scanned(count).sound(),
        session.scanned(count).options == session.options,
        session.reported().sound(),
        session.reported().options == session.options,
        session.answered(answer).sound(),
        session.answered(answer).options == session.options,
        session.executed(freed, count).sound(),
        session.executed(freed, count).options == session.options,
        session.options.dry_run ==> session.stage != Stage::Execute && session.stage
            != Stage::Confirm,
{
}

} // verus!
