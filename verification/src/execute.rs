//! Carrying out the deletions: which directory is removed next, and what
//! the removals have come to.
//!
//! The executor removes nothing itself. It names the next directory, its
//! caller removes it and says whether that went well, and the executor
//! keeps the account: the bytes freed are those recorded when the
//! directory was scanned, and one removal that fails stops none of the
//! others.

use vstd::prelude::*;
use crate::path::RelPath;
use crate::report::{
    all_purges, bytes_of, lemma_bytes_grow, results_view, totals, ScanResult, ScanResultView,
};
use crate::scan::{purges_view, PurgeView};

verus! {

/// A directory to remove.
pub struct Deletion {
    /// The repository that the directory belongs to, below the base.
    pub repo: RelPath,
    /// The directory, below its repository.
    pub path: RelPath,
    /// The bytes that the scan found below it.
    pub size: u64,
}

/// A deletion as contracts speak of it.
pub struct DeletionView {
    pub repo: Seq<Seq<char>>,
    pub path: Seq<Seq<char>>,
    pub size: u64,
}

impl View for Deletion {
    type V = DeletionView;

    open spec fn view(&self) -> DeletionView {
        DeletionView { repo: self.repo@, path: self.path@, size: self.size }
    }
}

/// The deletions that the candidates of one repository call for.
pub open spec fn deletions_in(repo: Seq<Seq<char>>, purges: Seq<PurgeView>) -> Seq<DeletionView> {
    purges.map_values(|p: PurgeView| DeletionView { repo, path: p.path, size: p.size })
}

/// The deletions that results call for: every candidate of every
/// repository, in the order of the results.
pub open spec fn deletions_of(results: Seq<ScanResultView>) -> Seq<DeletionView>
    decreases results.len(),
{
    if results.len() == 0 {
        Seq::empty()
    } else {
        deletions_of(results.drop_last()) + deletions_in(
            results.last().repo,
            results.last().purges,
        )
    }
}

/// The candidates behind deletions.
pub open spec fn purges_behind(targets: Seq<DeletionView>) -> Seq<PurgeView> {
    targets.map_values(|d: DeletionView| PurgeView { path: d.path, size: d.size })
}

/// The bytes freed by the removals that went well: for each, the size
/// recorded for its directory.
pub open spec fn freed_bytes(targets: Seq<DeletionView>, outcomes: Seq<bool>) -> nat
    decreases outcomes.len(),
{
    if outcomes.len() == 0 || outcomes.len() > targets.len() {
        0
    } else {
        freed_bytes(targets, outcomes.drop_last()) + if outcomes.last() {
            targets[outcomes.len() - 1].size as nat
        } else {
            0
        }
    }
}

/// How many removals failed.
pub open spec fn failed(outcomes: Seq<bool>) -> nat
    decreases outcomes.len(),
{
    if outcomes.len() == 0 {
        0
    } else {
        failed(outcomes.drop_last()) + if outcomes.last() {
            0nat
        } else {
            1nat
        }
    }
}

/// The deletions of results stand for their candidates, one for one.
pub proof fn lemma_deletions_cover(results: Seq<ScanResultView>)
    ensures
        purges_behind(deletions_of(results)) == all_purges(results),
    decreases results.len(),
{
    if results.len() == 0 {
        assert(purges_behind(deletions_of(results)) =~= all_purges(results));
    } else {
        lemma_deletions_cover(results.drop_last());
        assert(purges_behind(deletions_of(results)) =~= all_purges(results));
    }
}

/// What was freed is at most what the directories dealt with held, and no
/// more removals failed than were tried.
pub proof fn lemma_account_bounded(targets: Seq<DeletionView>, outcomes: Seq<bool>)
    requires
        outcomes.len() <= targets.len(),
    ensures
        freed_bytes(targets, outcomes) <= bytes_of(
            purges_behind(targets).take(outcomes.len() as int),
        ),
        freed_bytes(targets, outcomes) <= bytes_of(purges_behind(targets)),
        failed(outcomes) <= outcomes.len(),
    decreases outcomes.len(),
{
    let purges = purges_behind(targets);
    if outcomes.len() > 0 {
        lemma_account_bounded(targets, outcomes.drop_last());
        assert(purges.take(outcomes.len() as int).drop_last() =~= purges.take(
            outcomes.len() - 1,
        ));
    }
    lemma_bytes_grow(purges, outcomes.len() as int);
}

/// The state of an execution.
pub struct Executor {
    targets: Vec<Deletion>,
    /// How the removals so far went, in their order.
    outcomes: Ghost<Seq<bool>>,
    /// How many removals were tried.
    next: usize,
    freed: u64,
    failures: usize,
}

/// The state of an execution as contracts speak of it.
pub struct ExecutorView {
    /// Everything that is to be removed, in order.
    pub targets: Seq<DeletionView>,
    /// How the removals so far went, in their order: `true` for a
    /// directory that is gone.
    pub outcomes: Seq<bool>,
}

impl ExecutorView {
    /// The state after the removal of the next directory was tried. Once
    /// every directory has been dealt with, nothing changes.
    pub open spec fn removed(self, ok: bool) -> ExecutorView {
        if self.outcomes.len() < self.targets.len() {
            ExecutorView { targets: self.targets, outcomes: self.outcomes.push(ok) }
        } else {
            self
        }
    }
}

impl View for Executor {
    type V = ExecutorView;

    closed spec fn view(&self) -> ExecutorView {
        ExecutorView {
            targets: self.targets@.map_values(|d: Deletion| d@),
            outcomes: self.outcomes@,
        }
    }
}

impl Executor {
    /// Whether the account agrees with what has happened.
    pub closed spec fn wf(&self) -> bool {
        &&& self.next == self.outcomes@.len()
        &&& self.next <= self.targets@.len()
        &&& self.freed == freed_bytes(self@.targets, self@.outcomes)
        &&& self.failures == failed(self@.outcomes)
        &&& bytes_of(purges_behind(self@.targets)) <= u64::MAX
    }

    /// An execution of everything that the results hold; `None` where the
    /// bytes or the directories are too many to count.
    pub fn new(results: &Vec<ScanResult>) -> (executor: Option<Executor>)
        ensures
            executor is Some <==> all_purges(results_view(results@)).len() <= usize::MAX
                && bytes_of(all_purges(results_view(results@))) <= u64::MAX,
            executor matches Some(e) ==> e.wf() && e@ == (ExecutorView {
                targets: deletions_of(results_view(results@)),
                outcomes: Seq::empty(),
            }),
    {
        if totals(results).is_none() {
            return None;
        }
        let ghost all = results_view(results@);
        let mut targets: Vec<Deletion> = Vec::new();
        let mut r: usize = 0;
        assert(all.take(0) =~= Seq::empty());
        assert(targets@.map_values(|d: Deletion| d@) =~= deletions_of(all.take(0)));
        while r < results.len()
            invariant
                r <= results.len(),
                all == results_view(results@),
                targets@.map_values(|d: Deletion| d@) == deletions_of(all.take(r as int)),
            decreases results.len() - r,
        {
            let result = &results[r];
            let ghost before = deletions_of(all.take(r as int));
            let ghost these = purges_view(result.purges@);
            proof {
                assert(all.take(r + 1).drop_last() =~= all.take(r as int));
                assert(all.take(r + 1).last() == result@);
            }
            let mut i: usize = 0;
            assert(before + deletions_in(result.repo@, these.take(0)) =~= before);
            while i < result.purges.len()
                invariant
                    i <= result.purges.len(),
                    these == purges_view(result.purges@),
                    targets@.map_values(|d: Deletion| d@) == before + deletions_in(
                        result.repo@,
                        these.take(i as int),
                    ),
                decreases result.purges.len() - i,
            {
                let ghost held = targets@.map_values(|d: Deletion| d@);
                let purge = &result.purges[i];
                targets.push(
                    Deletion {
                        repo: result.repo.clone(),
                        path: purge.path.clone(),
                        size: purge.size,
                    },
                );
                assert(targets@.map_values(|d: Deletion| d@) =~= held.push(
                    DeletionView { repo: result.repo@, path: purge@.path, size: purge@.size },
                ));
                assert(targets@.map_values(|d: Deletion| d@) =~= before + deletions_in(
                    result.repo@,
                    these.take(i + 1),
                ));
                i += 1;
            }
            assert(these.take(result.purges.len() as int) =~= these);
            r += 1;
        }
        assert(all.take(results.len() as int) =~= all);
        let executor = Executor { targets, outcomes: Ghost(Seq::empty()), next: 0, freed: 0, failures: 0 };
        proof {
            lemma_deletions_cover(all);
        }
        Some(executor)
    }

    /// The directory to remove next; `None` once every directory has been
    /// dealt with.
    pub fn request(&self) -> (target: Option<&Deletion>)
        requires
            self.wf(),
        ensures
            self@.outcomes.len() >= self@.targets.len() ==> target is None,
            self@.outcomes.len() < self@.targets.len() ==> target is Some && target->0@
                == self@.targets[self@.outcomes.len() as int],
    {
        if self.next < self.targets.len() {
            Some(&self.targets[self.next])
        } else {
            None
        }
    }

    /// Whether every directory has been dealt with.
    pub fn is_finished(&self) -> (done: bool)
        requires
            self.wf(),
        ensures
            done == (self@.outcomes.len() >= self@.targets.len()),
    {
        self.next >= self.targets.len()
    }

    /// Records whether the directory named by [`Self::request`] was
    /// removed, and moves on to the next, whether it was or not.
    pub fn removed(&mut self, ok: bool)
        requires
            old(self).wf(),
        ensures
            final(self).wf(),
            final(self)@ == old(self)@.removed(ok),
    {
        if self.next < self.targets.len() {
            let ghost after = self.outcomes@.push(ok);
            proof {
                assert(after.drop_last() =~= self.outcomes@);
                lemma_account_bounded(self@.targets, after);
            }
            if ok {
                self.freed = self.freed + self.targets[self.next].size;
            } else {
                self.failures = self.failures + 1;
            }
            self.next = self.next + 1;
            self.outcomes = Ghost(after);
        }
    }

    /// The bytes freed so far: the recorded sizes of the directories that
    /// were removed.
    pub fn freed(&self) -> (bytes: u64)
        requires
            self.wf(),
        ensures
            bytes == freed_bytes(self@.targets, self@.outcomes),
    {
        self.freed
    }

    /// How many removals have failed so far.
    pub fn failures(&self) -> (count: usize)
        requires
            self.wf(),
        ensures
            count == failed(self@.outcomes),
    {
        self.failures
    }
}

} // verus!
